//! Splitting a command's arguments into options (the arguments that start
//! with `-`) and operands (the rest), with the relative order of each group
//! kept.

use vstd::prelude::*;

verus! {

/// Whether an argument is an option: it starts with `-`.
pub open spec fn is_option_arg(a: Seq<char>) -> bool {
    a.len() > 0 && a[0] == '-'
}

/// The subsequence of `args` made of its options, in order.
pub open spec fn options_of(args: Seq<Seq<char>>) -> Seq<Seq<char>>
    decreases args.len(),
{
    if args.len() == 0 {
        Seq::empty()
    } else if is_option_arg(args.last()) {
        options_of(args.drop_last()).push(args.last())
    } else {
        options_of(args.drop_last())
    }
}

/// The subsequence of `args` made of its operands, in order.
pub open spec fn operands_of(args: Seq<Seq<char>>) -> Seq<Seq<char>>
    decreases args.len(),
{
    if args.len() == 0 {
        Seq::empty()
    } else if is_option_arg(args.last()) {
        operands_of(args.drop_last())
    } else {
        operands_of(args.drop_last()).push(args.last())
    }
}

/// Whether `a` starts with `-`, that is, whether it is an option.
fn starts_with_dash(a: &String) -> (b: bool)
    ensures
        b == is_option_arg(a@),
{
    let s = a.as_str();
    if s.unicode_len() == 0 {
        false
    } else {
        s.get_char(0) == '-'
    }
}

/// Split `args` into its options and its operands, each group in its
/// original order.
pub fn extract_options<'a>(args: &'a [String]) -> (r: (Vec<&'a String>, Vec<&'a String>))
    ensures
        r.0.deep_view() == options_of(args.deep_view()),
        r.1.deep_view() == operands_of(args.deep_view()),
{
    let mut opts: Vec<&'a String> = Vec::new();
    let mut operands: Vec<&'a String> = Vec::new();

    for k in 0..args.len()
        invariant
            opts.deep_view() == options_of(args.deep_view().take(k as int)),
            operands.deep_view() == operands_of(args.deep_view().take(k as int)),
    {
        let a = &args[k];
        if starts_with_dash(a) {
            opts.push(a);
        } else {
            operands.push(a);
        }
        proof {
            assert(args.deep_view().take(k + 1).drop_last() =~= args.deep_view().take(k as int));
            assert(args.deep_view().take(k + 1).last() == args.deep_view()[k as int]);
            assert(opts.deep_view() =~= options_of(args.deep_view().take(k + 1)));
            assert(operands.deep_view() =~= operands_of(args.deep_view().take(k + 1)));
        }
    }
    proof {
        assert(args.deep_view().take(args@.len() as int) =~= args.deep_view());
    }
    (opts, operands)
}

} // verus!
