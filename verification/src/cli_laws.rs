//! What holds of the command line.

use vstd::prelude::*;
use crate::cli::{command_of, without_dashes, CommandModel};

verus! {

/// Whether `rest` is what stands behind the first `n` words of `args`, which are all
/// `--`, and does not start with another.
pub open spec fn is_behind_dashes(args: Seq<Seq<char>>, rest: Seq<Seq<char>>, n: int) -> bool {
    &&& 0 <= n <= args.len()
    &&& forall|i: int| 0 <= i < n ==> #[trigger] args[i] == "--"@
    &&& rest == args.skip(n)
    &&& rest.len() > 0 ==> rest[0] != "--"@
}

/// Only the `--` that stand before the first other word are left out.
pub proof fn only_leading_dashes_are_left_out(args: Seq<Seq<char>>)
    ensures
        exists|n: int| #[trigger] is_behind_dashes(args, without_dashes(args), n),
    decreases args.len(),
{
    if args.len() > 0 && args[0] == "--"@ {
        let rest = args.drop_first();
        only_leading_dashes_are_left_out(rest);
        let n = choose|n: int| #[trigger] is_behind_dashes(rest, without_dashes(rest), n);
        assert(rest.skip(n) =~= args.skip(n + 1));
        assert forall|i: int| 0 <= i < n + 1 implies #[trigger] args[i] == "--"@ by {
            if i > 0 {
                assert(rest[i - 1] == args[i]);
            }
        }
        assert(is_behind_dashes(args, without_dashes(args), n + 1));
    } else {
        assert(args.skip(0) =~= args);
        assert(is_behind_dashes(args, without_dashes(args), 0));
    }
}

/// The first word after the program's name is the command, and the rest goes with
/// it. What is no command of its own, and nothing at all, serves the fence.
pub proof fn the_first_word_is_the_command(args: Seq<Seq<char>>, rest: Seq<Seq<char>>, n: int)
    ensures
        args.len() < 2 ==> command_of(args) is Serve,
        args.len() >= 2 && args[1] == "wrap"@ ==> command_of(args) is Wrap,
        args.len() >= 2 && args[1] == "wrap"@ && is_behind_dashes(args.skip(2), rest, n)
            ==> command_of(args) == CommandModel::Wrap(rest),
        args.len() >= 2 && args[1] == "probe"@ ==> command_of(args) == CommandModel::Probe(args.skip(2)),
        args.len() >= 2 && args[1] == "demo"@ ==> command_of(args) is Demo,
        args.len() >= 2 && args[1] == "__demo-server"@ ==> command_of(args) is DemoServer,
        args.len() >= 2 && args[1] != "wrap"@ && args[1] != "probe"@ && args[1] != "demo"@ && args[1]
            != "__demo-server"@ ==> command_of(args) is Serve,
{
    reveal_strlit("wrap");
    reveal_strlit("probe");
    reveal_strlit("demo");
    reveal_strlit("__demo-server");
    assert("__demo-server"@.len() == 13 && "wrap"@.len() == 4 && "probe"@.len() == 5 && "demo"@.len()
        == 4);
    assert("wrap"@[0] == 'w' && "demo"@[0] == 'd');
    if args.len() >= 2 && is_behind_dashes(args.skip(2), rest, n) {
        let words = args.skip(2);
        only_leading_dashes_are_left_out(words);
        let m = choose|m: int| #[trigger] is_behind_dashes(words, without_dashes(words), m);
        if m < n {
            assert(words[m] == "--"@);
            assert(words.skip(m)[0] == words[m]);
        }
        if n < m {
            assert(words[n] == "--"@);
            assert(words.skip(n)[0] == words[n]);
        }
    }
}

} // verus!
