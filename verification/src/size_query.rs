//! Reading the window's authoritative size out of its path descriptor.
//!
//! The windowing server describes a window with a textual, slash-delimited
//! descriptor of the shape `scheme:/x/y/width/height/title`. The width and
//! height are the two fields after the third slash. A missing or unparseable
//! field counts as zero, so a malformed descriptor degrades to an empty
//! authoritative size rather than an error.

use vstd::prelude::*;

verus! {

/// ASCII `/`.
pub const SLASH: u8 = 47;

/// ASCII `+`.
pub const PLUS: u8 = 43;

/// ASCII `0`.
pub const DIGIT_ZERO: u8 = 48;

/// ASCII `9`.
pub const DIGIT_NINE: u8 = 57;

/// Whether `b` is an ASCII decimal digit.
pub open spec fn is_digit(b: u8) -> bool {
    DIGIT_ZERO <= b && b <= DIGIT_NINE
}

/// Whether every byte of `s` is an ASCII decimal digit.
pub open spec fn all_digits(s: Seq<u8>) -> bool {
    forall|k: int| 0 <= k < s.len() ==> is_digit(#[trigger] s[k])
}

/// The value of a sequence of ASCII decimal digits, most significant first.
pub open spec fn digits_value(s: Seq<u8>) -> int
    decreases s.len(),
{
    if s.len() == 0 {
        0
    } else {
        digits_value(s.drop_last()) * 10 + (s.last() - DIGIT_ZERO)
    }
}

/// The digits of a numeric field, allowing one optional leading plus sign.
pub open spec fn number_body(s: Seq<u8>) -> Seq<u8> {
    if s.len() > 0 && s[0] == PLUS {
        s.skip(1)
    } else {
        s
    }
}

/// The number a textual field denotes: at least one digit after an optional
/// plus sign, with a value that fits in `usize`; anything else is
/// unparseable.
pub open spec fn parse_usize_spec(s: Seq<u8>) -> Option<usize> {
    let body = number_body(s);
    if body.len() > 0 && all_digits(body) && digits_value(body) <= usize::MAX {
        Some(digits_value(body) as usize)
    } else {
        None
    }
}

/// The value of a field, an unparseable one counting as zero.
pub open spec fn field_or_zero(s: Seq<u8>) -> usize {
    match parse_usize_spec(s) {
        Some(v) => v,
        None => 0,
    }
}

/// What follows the first slash of `s`, or `None` where `s` holds no slash.
pub open spec fn after_slash(s: Seq<u8>) -> Option<Seq<u8>>
    decreases s.len(),
{
    if s.len() == 0 {
        None
    } else if s[0] == SLASH {
        Some(s.skip(1))
    } else {
        after_slash(s.skip(1))
    }
}

/// The bytes of `s` up to its first slash or its end: the first
/// slash-delimited field.
pub open spec fn head_field(s: Seq<u8>) -> Seq<u8>
    decreases s.len(),
{
    if s.len() == 0 {
        Seq::<u8>::empty()
    } else if s[0] == SLASH {
        Seq::<u8>::empty()
    } else {
        seq![s[0]] + head_field(s.skip(1))
    }
}

/// The authoritative window size a descriptor reports: the fields after the
/// third slash give the width and the height, and a missing or unparseable
/// field counts as zero.
pub open spec fn window_size_spec(s: Seq<u8>) -> (usize, usize) {
    match after_slash(s) {
        None => (0usize, 0usize),
        Some(s1) => match after_slash(s1) {
            None => (0usize, 0usize),
            Some(s2) => match after_slash(s2) {
                None => (0usize, 0usize),
                Some(s3) => {
                    let w = field_or_zero(head_field(s3));
                    let h = match after_slash(s3) {
                        None => 0usize,
                        Some(s4) => field_or_zero(head_field(s4)),
                    };
                    (w, h)
                },
            },
        },
    }
}

/// Scans for the first slash at or after `from`; on a hit the tail after
/// that slash is what `after_slash` yields for the tail at `from`.
fn next_after_slash(s: &[u8], from: usize) -> (r: Option<usize>)
    requires
        from <= s@.len(),
    ensures
        match r {
            Some(j) => from < j <= s@.len() && after_slash(s@.skip(from as int)) == Some(
                s@.skip(j as int),
            ),
            None => after_slash(s@.skip(from as int)) is None,
        },
{
    let n = s.len();
    let mut i = from;
    while i < n
        invariant
            from <= i <= n,
            n == s@.len(),
            after_slash(s@.skip(from as int)) == after_slash(s@.skip(i as int)),
        decreases n - i,
    {
        if s[i] == SLASH {
            proof {
                assert(s@.skip(i as int).skip(1) =~= s@.skip(i as int + 1));
            }
            return Some(i + 1);
        }
        proof {
            assert(s@.skip(i as int).skip(1) =~= s@.skip(i as int + 1));
        }
        i += 1;
    }
    None
}

/// Scans for the end of the field that starts at `start`: the next slash or
/// the end of the descriptor.
fn field_end(s: &[u8], start: usize) -> (e: usize)
    requires
        start <= s@.len(),
    ensures
        start <= e <= s@.len(),
        head_field(s@.skip(start as int)) == s@.subrange(start as int, e as int),
{
    let n = s.len();
    let mut i = start;
    while i < n && s[i] != SLASH
        invariant
            start <= i <= n,
            n == s@.len(),
            head_field(s@.skip(start as int)) == s@.subrange(start as int, i as int) + head_field(
                s@.skip(i as int),
            ),
        decreases n - i,
    {
        proof {
            assert(s@.skip(i as int).skip(1) =~= s@.skip(i as int + 1));
            assert(s@.subrange(start as int, i as int) + seq![s@[i as int]] =~= s@.subrange(
                start as int,
                i as int + 1,
            ));
            assert(s@.subrange(start as int, i as int) + (seq![s@[i as int]] + head_field(
                s@.skip(i as int + 1),
            )) =~= (s@.subrange(start as int, i as int) + seq![s@[i as int]]) + head_field(
                s@.skip(i as int + 1),
            ));
        }
        i += 1;
    }
    proof {
        assert(head_field(s@.skip(i as int)) =~= Seq::<u8>::empty());
        assert(s@.subrange(start as int, i as int) + Seq::<u8>::empty() =~= s@.subrange(
            start as int,
            i as int,
        ));
    }
    i
}

/// Every digit sequence has a nonnegative value.
proof fn lemma_digits_value_nonneg(s: Seq<u8>)
    requires
        all_digits(s),
    ensures
        digits_value(s) >= 0,
    decreases s.len(),
{
    if s.len() > 0 {
        assert(all_digits(s.drop_last()));
        lemma_digits_value_nonneg(s.drop_last());
    }
}

/// Appending further digits never shrinks the value: the whole digit string
/// is worth at least any of its prefixes.
proof fn lemma_digits_value_prefix(s: Seq<u8>, k: int)
    requires
        all_digits(s),
        0 <= k <= s.len(),
    ensures
        digits_value(s) >= digits_value(s.take(k)),
    decreases s.len() - k,
{
    if k < s.len() {
        assert(all_digits(s.take(k + 1)));
        assert(s.take(k + 1).drop_last() =~= s.take(k));
        lemma_digits_value_nonneg(s.take(k));
        lemma_digits_value_prefix(s, k + 1);
    } else {
        assert(s.take(k) =~= s);
    }
}

/// Reads the numeric field spanning `start..end` of the descriptor, an
/// unparseable or overflowing field counting as zero.
fn parse_field(s: &[u8], start: usize, end: usize) -> (r: usize)
    requires
        start <= end <= s@.len(),
    ensures
        r == field_or_zero(s@.subrange(start as int, end as int)),
{
    let ghost field = s@.subrange(start as int, end as int);
    let body_start: usize = if start < end && s[start] == PLUS {
        start + 1
    } else {
        start
    };
    let ghost body = s@.subrange(body_start as int, end as int);
    proof {
        assert(number_body(field) =~= body);
    }
    if body_start == end {
        return 0;
    }
    let mut acc: usize = 0;
    let mut j = body_start;
    while j < end
        invariant
            start <= body_start <= j <= end <= s@.len(),
            body == s@.subrange(body_start as int, end as int),
            number_body(s@.subrange(start as int, end as int)) == body,
            body_start < end,
            all_digits(s@.subrange(body_start as int, j as int)),
            acc == digits_value(s@.subrange(body_start as int, j as int)),
        decreases end - j,
    {
        let b = s[j];
        if b < DIGIT_ZERO || b > DIGIT_NINE {
            proof {
                assert(body[j - body_start] == s@[j as int]);
                assert(!all_digits(body));
            }
            return 0;
        }
        let d: usize = (b - DIGIT_ZERO) as usize;
        if acc > (usize::MAX - d) / 10 {
            proof {
                let done = s@.subrange(body_start as int, j as int + 1);
                assert(done.drop_last() =~= s@.subrange(body_start as int, j as int));
                assert(done.last() == s@[j as int]);
                assert(all_digits(done));
                assert(digits_value(done) == acc * 10 + d);
                assert(acc * 10 + d > usize::MAX) by {
                    vstd::arithmetic::div_mod::lemma_fundamental_div_mod(
                        usize::MAX - d,
                        10,
                    );
                    vstd::arithmetic::div_mod::lemma_mod_bound(usize::MAX - d, 10);
                };
                if all_digits(body) {
                    assert(body.take(j - body_start + 1) =~= done);
                    lemma_digits_value_prefix(body, j - body_start + 1);
                    assert(digits_value(body) > usize::MAX);
                }
            }
            return 0;
        }
        proof {
            let done = s@.subrange(body_start as int, j as int + 1);
            assert(done.drop_last() =~= s@.subrange(body_start as int, j as int));
            assert(done.last() == s@[j as int]);
            assert(acc * 10 + d <= usize::MAX) by {
                vstd::arithmetic::div_mod::lemma_fundamental_div_mod(usize::MAX - d, 10);
                vstd::arithmetic::div_mod::lemma_mod_bound(usize::MAX - d, 10);
            };
        }
        acc = acc * 10 + d;
        j += 1;
    }
    proof {
        assert(s@.subrange(body_start as int, j as int) =~= body);
    }
    acc
}

/// Reads the authoritative window width and height out of a path
/// descriptor, missing or unparseable fields counting as zero.
pub fn parse_window_size(descriptor: &[u8]) -> (r: (usize, usize))
    ensures
        r == window_size_spec(descriptor@),
{
    proof {
        assert(descriptor@.skip(0) =~= descriptor@);
    }
    let p1 = match next_after_slash(descriptor, 0) {
        Some(p) => p,
        None => {
            return (0, 0);
        },
    };
    let p2 = match next_after_slash(descriptor, p1) {
        Some(p) => p,
        None => {
            return (0, 0);
        },
    };
    let p3 = match next_after_slash(descriptor, p2) {
        Some(p) => p,
        None => {
            return (0, 0);
        },
    };
    let e3 = field_end(descriptor, p3);
    let w = parse_field(descriptor, p3, e3);
    let h = match next_after_slash(descriptor, p3) {
        Some(p4) => {
            let e4 = field_end(descriptor, p4);
            parse_field(descriptor, p4, e4)
        },
        None => 0,
    };
    (w, h)
}

} // verus!
