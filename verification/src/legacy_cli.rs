//! Long flags with a single dash.

use crate::text::{same_text, texts, without_prefix};
use vstd::prelude::*;
use vstd::string::*;

verus! {

/// The characters of some borrowed texts.
pub open spec fn borrowed_texts(s: Seq<&str>) -> Seq<Seq<char>> {
    Seq::new(s.len(), |i: int| s[i]@)
}

/// Whether an argument is a known flag behind a single dash.
pub open spec fn is_legacy_flag(flags: Seq<Seq<char>>, arg: Seq<char>) -> bool {
    &&& arg.len() > 0 && arg[0] == '-'
    &&& !(arg.len() > 1 && arg[1] == '-')
    &&& flags.contains(arg.skip(1))
}

/// An argument with a second dash, if it is a known flag behind a single one.
pub open spec fn normalized(flags: Seq<Seq<char>>, arg: Seq<char>) -> Seq<char> {
    if is_legacy_flag(flags, arg) {
        seq!['-'] + arg
    } else {
        arg
    }
}

/// Arguments with a second dash before each known flag behind a single one.
pub open spec fn normalized_all(flags: Seq<Seq<char>>, args: Seq<Seq<char>>) -> Seq<Seq<char>> {
    args.map_values(|arg: Seq<char>| normalized(flags, arg))
}

fn is_listed(flags: &[&str], name: &str) -> (r: bool)
    ensures
        r == borrowed_texts(flags@).contains(name@),
{
    let mut i: usize = 0;
    while i < flags.len()
        invariant
            i <= flags@.len(),
            forall|j: int| 0 <= j < i ==> (#[trigger] flags@[j])@ != name@,
        decreases flags@.len() - i,
    {
        if same_text(flags[i], name) {
            assert(borrowed_texts(flags@)[i as int] == name@);
            return true;
        }
        i = i + 1;
    }
    assert(!borrowed_texts(flags@).contains(name@)) by {
        if borrowed_texts(flags@).contains(name@) {
            let j = choose|j: int|
                0 <= j < borrowed_texts(flags@).len() && borrowed_texts(flags@)[j] == name@;
            assert(flags@[j]@ == name@);
        }
    }
    false
}

fn normalized_arg(flags: &[&str], arg: String) -> (r: String)
    ensures
        r@ == normalized(borrowed_texts(flags@), arg@),
{
    proof {
        reveal_strlit("-");
        reveal_strlit("--");
    }
    if let Some(name) = without_prefix(arg.as_str(), "-") {
        assert(arg@[0] == '-') by {
            assert("-"@[0] == '-');
        }
        let second = without_prefix(name, "-").is_some();
        assert(second <==> arg@.len() > 1 && arg@[1] == '-') by {
            if second {
                assert(name@[0] == "-"@[0]);
            }
            if arg@.len() > 1 && arg@[1] == '-' {
                assert("-"@ =~= name@.take(1));
                assert("-"@.is_prefix_of(name@));
            }
        }
        if !second && is_listed(flags, name) {
            let mut out = "--".to_owned();
            out.append(name);
            assert(out@ =~= seq!['-'] + arg@);
            return out;
        }
    } else {
        assert(!(arg@.len() > 0 && arg@[0] == '-')) by {
            if arg@.len() > 0 && arg@[0] == '-' {
                assert("-"@ =~= arg@.take(1));
                assert("-"@.is_prefix_of(arg@));
            }
        }
    }
    arg
}

/// Puts a second dash before each known flag behind a single one.
pub fn normalize_legacy_args(legacy_flags: &[&str], args: Vec<String>) -> (r: Vec<String>)
    ensures
        texts(r@) == normalized_all(borrowed_texts(legacy_flags@), texts(args@)),
{
    let ghost flags = borrowed_texts(legacy_flags@);
    let ghost all = args@;
    let mut out: Vec<String> = Vec::new();
    let mut i: usize = 0;
    while i < args.len()
        invariant
            i <= args@.len(),
            all == args@,
            flags == borrowed_texts(legacy_flags@),
            out@.len() == i,
            forall|j: int| 0 <= j < i ==> (#[trigger] out@[j])@ == normalized(flags, all[j]@),
        decreases args@.len() - i,
    {
        out.push(normalized_arg(legacy_flags, args[i].clone()));
        i = i + 1;
    }
    assert(texts(out@) =~= normalized_all(flags, texts(args@)));
    out
}

/// Normalized arguments stay as they are.
pub proof fn law_normalizing_is_done_once(flags: Seq<Seq<char>>, args: Seq<Seq<char>>)
    ensures
        normalized_all(flags, normalized_all(flags, args)) == normalized_all(flags, args),
{
    assert(normalized_all(flags, normalized_all(flags, args)) =~= normalized_all(flags, args));
}

/// A known flag may be written with one dash or two.
pub proof fn law_one_dash_or_two(flags: Seq<Seq<char>>, name: Seq<char>)
    requires
        flags.contains(name),
        !(name.len() > 0 && name[0] == '-'),
    ensures
        normalized(flags, seq!['-'] + name) == seq!['-', '-'] + name,
        normalized(flags, seq!['-', '-'] + name) == seq!['-', '-'] + name,
{
    assert((seq!['-'] + name).skip(1) =~= name);
    assert(seq!['-'] + (seq!['-'] + name) =~= seq!['-', '-'] + name);
}

/// What does not start with a dash, and what starts with two, stays as it is.
pub proof fn law_other_arguments_stay(flags: Seq<Seq<char>>, arg: Seq<char>)
    requires
        arg.len() == 0 || arg[0] != '-' || (arg.len() > 1 && arg[1] == '-') || !flags.contains(
            arg.skip(1),
        ),
    ensures
        normalized(flags, arg) == arg,
{
}

/// Arguments keep their number and their places, and each is normalized on its own.
pub proof fn law_arguments_keep_their_places(flags: Seq<Seq<char>>, args: Seq<Seq<char>>)
    ensures
        normalized_all(flags, args).len() == args.len(),
        forall|i: int|
            0 <= i < args.len() ==> #[trigger] normalized_all(flags, args)[i] == normalized(
                flags,
                args[i],
            ),
{
}

/// The characters of borrowed texts are those of each text, in order.
pub proof fn law_borrowed_texts_are_in_order(s: Seq<&str>)
    ensures
        borrowed_texts(s).len() == s.len(),
        forall|i: int| 0 <= i < s.len() ==> #[trigger] borrowed_texts(s)[i] == s[i]@,
{
}

} // verus!
