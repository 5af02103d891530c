//! Parsing lines of the user and group database files: colon-separated
//! fields, with a numeric id in the third field, as in `/etc/passwd` and
//! `/etc/group`.

use vstd::prelude::*;

verus! {

/// Whether `c` is a digit of the given radix; for a radix up to ten these
/// are the characters `0` up to the radix's last digit.
pub open spec fn is_radix_digit(c: char, radix: u32) -> bool {
    ('0' as u32) <= (c as u32) && (c as u32) < ('0' as u32) + radix
}

/// Whether every character of `s` is a digit of the given radix.
pub open spec fn all_radix_digits(s: Seq<char>, radix: u32) -> bool {
    forall|k: int| 0 <= k < s.len() ==> is_radix_digit(#[trigger] s[k], radix)
}

/// The numeric value of a digit string in the given radix.
pub open spec fn digits_val(s: Seq<char>, radix: u32) -> int
    decreases s.len(),
{
    if s.len() == 0 {
        0
    } else {
        digits_val(s.drop_last(), radix) * radix + (s.last() as u32 - '0' as u32)
    }
}

/// A number may start with one `+` sign, which carries no value.
pub open spec fn stripped_sign(s: Seq<char>) -> Seq<char> {
    if s.len() > 0 && s[0] == '+' {
        s.skip(1)
    } else {
        s
    }
}

/// Whether `s` reads as a `u32` in the given radix: after an optional
/// leading `+`, one or more digits of the radix and nothing else, and the
/// value fits.
pub open spec fn parseable_u32(s: Seq<char>, radix: u32) -> bool {
    let ds = stripped_sign(s);
    ds.len() > 0 && all_radix_digits(ds, radix) && digits_val(ds, radix) <= u32::MAX
}

/// A digit string's value is never negative.
proof fn lemma_digits_val_nonneg(s: Seq<char>, radix: u32)
    requires
        all_radix_digits(s, radix),
    ensures
        digits_val(s, radix) >= 0,
    decreases s.len(),
{
    if s.len() > 0 {
        assert(all_radix_digits(s.drop_last(), radix));
        lemma_digits_val_nonneg(s.drop_last(), radix);
        assert(digits_val(s.drop_last(), radix) * radix >= 0) by (nonlinear_arith)
            requires
                digits_val(s.drop_last(), radix) >= 0,
                radix >= 0,
        ;
    }
}

/// Dropping digits from the end of a digit string never raises its value.
proof fn lemma_digits_val_take(s: Seq<char>, radix: u32, j: int)
    requires
        all_radix_digits(s, radix),
        radix >= 1,
        0 <= j <= s.len(),
    ensures
        digits_val(s.take(j), radix) <= digits_val(s, radix),
    decreases s.len(),
{
    if j == s.len() {
        assert(s.take(j) =~= s);
    } else {
        assert(all_radix_digits(s.drop_last(), radix));
        lemma_digits_val_take(s.drop_last(), radix, j);
        assert(s.drop_last().take(j) =~= s.take(j));
        lemma_digits_val_nonneg(s.drop_last(), radix);
        assert(digits_val(s.drop_last(), radix) * radix >= digits_val(s.drop_last(), radix))
            by (nonlinear_arith)
            requires
                digits_val(s.drop_last(), radix) >= 0,
                radix >= 1,
        ;
        assert(s.last() as u32 >= '0' as u32);
    }
}

/// Parse `s` as a `u32` written in the given radix: an optional leading `+`,
/// then one or more digits. Returns `None` exactly when `s` does not read as
/// such a number or its value does not fit.
pub fn parse_u32_radix(s: &String, radix: u32) -> (r: Option<u32>)
    requires
        2 <= radix <= 10,
    ensures
        r is Some <==> parseable_u32(s@, radix),
        r matches Some(v) ==> v as int == digits_val(stripped_sign(s@), radix),
{
    let chars = crate::text::to_chars(s);
    let n = chars.len();
    let start: usize = if n > 0 && chars[0] == '+' {
        1
    } else {
        0
    };
    if start == n {
        // Nothing after the sign, or nothing at all.
        return None;
    }

    let mut acc: u64 = 0;
    let mut k: usize = start;
    while k < n
        invariant
            start <= k <= n,
            start <= 1,
            n == s@.len(),
            chars@ == s@,
            2 <= radix <= 10,
            (start == 1 <==> n > 0 && s@[0] == '+'),
            stripped_sign(s@) == s@.subrange(start as int, n as int),
            forall|t: int| start <= t < k ==> is_radix_digit(#[trigger] s@[t], radix),
            acc as int == digits_val(s@.subrange(start as int, k as int), radix),
            acc <= u32::MAX as u64,
        decreases n - k,
    {
        let c = chars[k];
        let cv = c as u32;
        if cv < '0' as u32 || cv >= '0' as u32 + radix {
            // Not a digit of the radix: the digit part is malformed.
            proof {
                if parseable_u32(s@, radix) {
                    assert(is_radix_digit(stripped_sign(s@)[k - start], radix));
                }
            }
            return None;
        }
        let d = cv - '0' as u32;
        proof {
            assert(acc * (radix as u64) + (d as u64) <= 0xFFFF_FFFFu64 * 10 + 9) by (nonlinear_arith)
                requires
                    acc <= 0xFFFF_FFFFu64,
                    radix <= 10,
                    d <= 9,
            ;
        }
        let next = acc * (radix as u64) + (d as u64);
        proof {
            assert(s@.subrange(start as int, k + 1).drop_last() =~= s@.subrange(
                start as int,
                k as int,
            ));
            assert(s@.subrange(start as int, k + 1).last() == s@[k as int]);
        }
        if next > 0xFFFF_FFFF {
            // The digits read so far already exceed what a u32 can hold, and
            // further digits only raise the value.
            proof {
                if parseable_u32(s@, radix) {
                    let ds = stripped_sign(s@);
                    lemma_digits_val_take(ds, radix, k + 1 - start);
                    assert(ds.take(k + 1 - start) =~= s@.subrange(start as int, k + 1));
                }
            }
            return None;
        }
        acc = next;
        k = k + 1;
    }
    proof {
        assert(s@.subrange(start as int, n as int) =~= stripped_sign(s@));
    }
    Some(acc as u32)
}

/// The colon-separated fields of a line, in order. A line always holds at
/// least one field; a separator at the very end opens a last, empty field.
pub open spec fn split_fields(s: Seq<char>) -> Seq<Seq<char>>
    decreases s.len(),
{
    if s.len() == 0 {
        seq![Seq::empty()]
    } else if s.last() == ':' {
        split_fields(s.drop_last()).push(Seq::empty())
    } else {
        let rest = split_fields(s.drop_last());
        rest.update(rest.len() - 1, rest.last().push(s.last()))
    }
}

/// What one database line says about an id.
#[derive(Debug, Clone, PartialEq, Eq)]
pub enum IdLookup {
    /// The line does not carry a third field that reads as a number.
    Malformed,
    /// The third field holds the id that was looked for; the line's first
    /// field, the name, is carried along.
    Found(String),
    /// A well-formed line about some other id.
    NoMatch,
}

/// Read one database line, formatted as in `/etc/passwd` or `/etc/group`:
/// the name stands in the first colon-separated field and the numeric id in
/// the third. Says whether the line is about `target_id`, and hands the name
/// out where it is.
pub fn lookup_id_line(line: &String, target_id: u32) -> (r: IdLookup)
    ensures
        ({
            let fields = split_fields(line@);
            &&& (r is Malformed <==> fields.len() < 3 || !parseable_u32(fields[2], 10))
            &&& (r matches IdLookup::Found(name) ==> fields.len() >= 3 && parseable_u32(
                fields[2],
                10,
            ) && digits_val(stripped_sign(fields[2]), 10) == target_id && name@ == fields[0])
            &&& (r is NoMatch ==> fields.len() >= 3 && parseable_u32(fields[2], 10) && digits_val(
                stripped_sign(fields[2]),
                10,
            ) != target_id)
        }),
{
    let mut fields: Vec<String> = Vec::new();
    let mut cur = String::new();

    for c in it: line.as_str().chars()
        invariant
            fields.deep_view().push(cur@) =~= split_fields(it.seq().take(it.index())),
    {
        if c == ':' {
            fields.push(cur);
            cur = String::new();
        } else {
            crate::text::push_char(&mut cur, c);
        }
        proof {
            assert(c == it.seq()[it.index()]);
            assert(it.seq().take(it.index() + 1).drop_last() =~= it.seq().take(it.index()));
            assert(it.seq().take(it.index() + 1).last() == c);
            assert(fields.deep_view().push(cur@) =~= split_fields(it.seq().take(it.index() + 1)));
        }
    }
    fields.push(cur);
    proof {
        assert(line@.take(line@.len() as int) =~= line@);
        assert(fields.deep_view() =~= split_fields(line@));
    }
    if fields.len() < 3 {
        return IdLookup::Malformed;
    }
    let id_field: &String = &fields[2];
    match parse_u32_radix(id_field, 10) {
        Option::None => IdLookup::Malformed,
        Option::Some(v) => {
            if v == target_id {
                let name_ref: &String = &fields[0];
                IdLookup::Found(name_ref.clone())
            } else {
                IdLookup::NoMatch
            }
        },
    }
}

} // verus!
