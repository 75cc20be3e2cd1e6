//! The command line: `-v`/`--verbose` keeps the application in the
//! foreground, and is not handed on to the toolkit.
use vstd::prelude::*;

use crate::text::str_eq;

verus! {

/// Whether `arg` asks for verbose, foreground operation.
pub open spec fn is_verbose_flag(arg: Seq<char>) -> bool {
    arg == "-v"@ || arg == "--verbose"@
}

/// The arguments, by their text.
pub open spec fn args_text(args: Seq<String>) -> Seq<Seq<char>> {
    args.map_values(|a: String| a@)
}

/// `args` without the verbose flags, in order.
pub open spec fn without_verbose_flags(args: Seq<Seq<char>>) -> Seq<Seq<char>>
    decreases args.len(),
{
    if args.len() == 0 {
        args
    } else if is_verbose_flag(args.last()) {
        without_verbose_flags(args.drop_last())
    } else {
        without_verbose_flags(args.drop_last()).push(args.last())
    }
}

fn is_verbose_arg(arg: &String) -> (b: bool)
    ensures
        b == is_verbose_flag(arg@),
{
    str_eq(arg.as_str(), "-v") || str_eq(arg.as_str(), "--verbose")
}

/// Whether any argument after the program name is a verbose flag.
pub fn wants_verbose(args: &[String]) -> (verbose: bool)
    ensures
        verbose == exists|i: int| 1 <= i < args@.len() && is_verbose_flag(#[trigger] args@[i]@),
{
    let n = args.len();
    let mut i: usize = 1;
    while i < n
        invariant
            n == args@.len(),
            1 <= i,
            forall|j: int| 1 <= j < i && j < n ==> !is_verbose_flag(#[trigger] args@[j]@),
        decreases n - i,
    {
        if is_verbose_arg(&args[i]) {
            return true;
        }
        i += 1;
    }
    false
}

/// The arguments handed on to the toolkit: all of them, the program name
/// included, except the verbose flags.
pub fn gtk_args(args: &[String]) -> (out: Vec<String>)
    ensures
        args_text(out@) == without_verbose_flags(args_text(args@)),
{
    let ghost all = args_text(args@);
    let n = args.len();
    let mut out: Vec<String> = Vec::new();
    let mut i: usize = 0;
    assert(all.take(0) =~= Seq::<Seq<char>>::empty());
    while i < n
        invariant
            n == args@.len() == all.len(),
            all == args_text(args@),
            i <= n,
            args_text(out@) == without_verbose_flags(all.take(i as int)),
        decreases n - i,
    {
        assert(all.take(i + 1).drop_last() =~= all.take(i as int));
        assert(all.take(i + 1).last() == args@[i as int]@);
        if !is_verbose_arg(&args[i]) {
            let ghost before = out@;
            out.push(args[i].clone());
            assert(args_text(out@) =~= args_text(before).push(args@[i as int]@));
        }
        i += 1;
    }
    assert(all.take(n as int) =~= all);
    out
}

/// No verbose flag reaches the toolkit.
pub proof fn lemma_no_verbose_flag_left(args: Seq<Seq<char>>)
    ensures
        forall|k: int|
            0 <= k < without_verbose_flags(args).len() ==> !is_verbose_flag(
                #[trigger] without_verbose_flags(args)[k],
            ),
    decreases args.len(),
{
    if args.len() > 0 {
        let rest = without_verbose_flags(args.drop_last());
        lemma_no_verbose_flag_left(args.drop_last());
        assert forall|k: int|
            0 <= k < without_verbose_flags(args).len() implies !is_verbose_flag(
            #[trigger] without_verbose_flags(args)[k],
        ) by {
            if k < rest.len() {
                assert(without_verbose_flags(args)[k] == rest[k]);
            }
        }
    }
}

/// Without verbose flags, the toolkit gets the arguments unchanged.
pub proof fn lemma_plain_args_unchanged(args: Seq<Seq<char>>)
    requires
        forall|k: int| 0 <= k < args.len() ==> !is_verbose_flag(#[trigger] args[k]),
    ensures
        without_verbose_flags(args) == args,
    decreases args.len(),
{
    if args.len() > 0 {
        lemma_plain_args_unchanged(args.drop_last());
        assert(args.drop_last().push(args.last()) =~= args);
    }
}

} // verus!
