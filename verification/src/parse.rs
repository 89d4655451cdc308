use vstd::prelude::*;
use vstd::slice::slice_to_vec;

verus! {

/// Line feed, the byte that ends a line.
pub const LINE_FEED: u8 = 10;

/// Carriage return, stripped when it ends a line.
pub const CARRIAGE_RETURN: u8 = 13;

/// Comma, the byte that separates the fields of a row.
pub const COMMA: u8 = 44;

/// Plus sign, the one sign an unsigned decimal number may carry.
pub const PLUS: u8 = 43;

/// The smallest index at which `b` occurs in `s`, if it occurs at all.
pub open spec fn find_byte(s: Seq<u8>, b: u8) -> Option<int>
    decreases s.len(),
{
    if s.len() == 0 {
        None
    } else if s[0] == b {
        Some(0)
    } else {
        match find_byte(s.skip(1), b) {
            None => None,
            Some(i) => Some(i + 1),
        }
    }
}

/// A sequence without an occurrence of `b` has no index of it.
pub proof fn lemma_find_byte_none(s: Seq<u8>, b: u8)
    requires
        forall|j: int| 0 <= j < s.len() ==> s[j] != b,
    ensures
        find_byte(s, b) is None,
    decreases s.len(),
{
    if s.len() > 0 {
        lemma_find_byte_none(s.skip(1), b);
    }
}

/// The first occurrence of `b` is the index of it that no earlier index
/// matches.
pub proof fn lemma_find_byte_some(s: Seq<u8>, b: u8, i: int)
    requires
        0 <= i < s.len(),
        s[i] == b,
        forall|j: int| 0 <= j < i ==> s[j] != b,
    ensures
        find_byte(s, b) == Some(i),
    decreases i,
{
    if i > 0 {
        lemma_find_byte_some(s.skip(1), b, i - 1);
    }
}

/// A line with its trailing carriage return, if any, stripped.
pub open spec fn strip_cr(s: Seq<u8>) -> Seq<u8> {
    if s.len() > 0 && s.last() == CARRIAGE_RETURN {
        s.drop_last()
    } else {
        s
    }
}

/// The lines of a byte stream: one line per line feed, each without its
/// terminator (a carriage return directly before the line feed goes with
/// it), and one more for a non-empty final segment.
pub open spec fn spec_lines(s: Seq<u8>) -> Seq<Seq<u8>>
    decreases s.len(),
{
    if s.len() == 0 {
        seq![]
    } else {
        match find_byte(s, LINE_FEED) {
            None => seq![s],
            Some(i) => if 0 <= i < s.len() {
                seq![strip_cr(s.subrange(0, i))] + spec_lines(s.skip(i + 1))
            } else {
                seq![]
            },
        }
    }
}

/// The fields of a row: the segments between commas. A row with no comma is
/// one field, so there is always at least one.
pub open spec fn spec_fields(s: Seq<u8>) -> Seq<Seq<u8>>
    decreases s.len(),
{
    match find_byte(s, COMMA) {
        None => seq![s],
        Some(i) => if 0 <= i < s.len() {
            seq![s.subrange(0, i)] + spec_fields(s.skip(i + 1))
        } else {
            seq![]
        },
    }
}

/// Finds the first occurrence of `b` in `s` at or after `from`.
fn find_byte_from(s: &[u8], from: usize, b: u8) -> (r: Option<usize>)
    requires
        from <= s@.len(),
    ensures
        match r {
            Some(i) => {
                &&& from <= i < s@.len()
                &&& find_byte(s@.skip(from as int), b) == Some(i - from)
            },
            None => find_byte(s@.skip(from as int), b) is None,
        },
{
    let mut i = from;
    while i < s.len()
        invariant
            from <= i <= s@.len(),
            forall|j: int| from <= j < i ==> s@[j] != b,
        decreases s@.len() - i,
    {
        if s[i] == b {
            proof {
                lemma_find_byte_some(s@.skip(from as int), b, i - from);
            }
            return Some(i);
        }
        i = i + 1;
    }
    proof {
        lemma_find_byte_none(s@.skip(from as int), b);
    }
    None
}

/// Copies the bytes `from..to` of `s`, without a trailing carriage return.
fn stripped_segment(s: &[u8], from: usize, to: usize) -> (r: Vec<u8>)
    requires
        from <= to <= s@.len(),
    ensures
        r@ == strip_cr(s@.subrange(from as int, to as int)),
{
    let mut segment = slice_to_vec(&s[from..to]);
    if segment.len() > 0 && segment[segment.len() - 1] == CARRIAGE_RETURN {
        segment.pop();
        proof {
            assert(segment@ =~= s@.subrange(from as int, to as int).drop_last());
        }
    }
    segment
}

/// Splits a byte stream into its lines, as `spec_lines` lays them out.
pub fn split_lines(s: &[u8]) -> (r: Vec<Vec<u8>>)
    ensures
        r.deep_view() == spec_lines(s@),
{
    let mut lines: Vec<Vec<u8>> = Vec::new();
    let mut pos: usize = 0;
    proof {
        assert(s@.skip(0) =~= s@);
        assert(lines.deep_view() =~~= Seq::<Seq<u8>>::empty());
        assert(lines.deep_view() + spec_lines(s@) =~~= spec_lines(s@));
    }
    while pos < s.len()
        invariant
            pos <= s@.len(),
            spec_lines(s@) == lines.deep_view() + spec_lines(s@.skip(pos as int)),
        decreases s@.len() - pos,
    {
        let ghost p = pos as int;
        let ghost rest = s@.skip(pos as int);
        let ghost done = lines.deep_view();
        match find_byte_from(s, pos, LINE_FEED) {
            Some(i) => {
                let line = stripped_segment(s, pos, i);
                lines.push(line);
                pos = i + 1;
                proof {
                    assert(rest.subrange(0, i - p) =~= s@.subrange(p, i as int));
                    assert(rest.skip(i - p + 1) =~= s@.skip(i + 1));
                    assert(spec_lines(rest) == seq![strip_cr(s@.subrange(p, i as int))]
                        + spec_lines(s@.skip(i + 1)));
                    assert(lines.deep_view() =~~= done.push(line@));
                    assert(done + spec_lines(rest) =~~= lines.deep_view() + spec_lines(
                        s@.skip(i + 1),
                    ));
                }
            },
            None => {
                let line = slice_to_vec(&s[pos..s.len()]);
                lines.push(line);
                pos = s.len();
                proof {
                    assert(spec_lines(rest) == seq![rest]);
                    assert(lines.deep_view() =~~= done.push(line@));
                    assert(s@.skip(s@.len() as int) =~= Seq::<u8>::empty());
                    assert(done + spec_lines(rest) =~~= lines.deep_view() + spec_lines(
                        s@.skip(s@.len() as int),
                    ));
                }
            },
        }
    }
    proof {
        assert(s@.skip(pos as int) =~= Seq::<u8>::empty());
        assert(lines.deep_view() + spec_lines(s@.skip(pos as int)) =~= lines.deep_view());
    }
    lines
}

/// Splits a row into its fields, as `spec_fields` lays them out.
pub fn split_fields(s: &[u8]) -> (r: Vec<Vec<u8>>)
    ensures
        r.deep_view() == spec_fields(s@),
        r@.len() >= 1,
{
    let mut fields: Vec<Vec<u8>> = Vec::new();
    let mut pos: usize = 0;
    let n = s.len();
    proof {
        assert(s@.skip(0) =~= s@);
        assert(fields.deep_view() =~~= Seq::<Seq<u8>>::empty());
        assert(fields.deep_view() + spec_fields(s@) =~~= spec_fields(s@));
    }
    loop
        invariant
            pos <= s@.len(),
            n == s@.len(),
            spec_fields(s@) == fields.deep_view() + spec_fields(s@.skip(pos as int)),
        decreases s@.len() - pos,
    {
        let ghost p = pos as int;
        let ghost rest = s@.skip(pos as int);
        let ghost done = fields.deep_view();
        match find_byte_from(s, pos, COMMA) {
            Some(i) => {
                let field = slice_to_vec(&s[pos..i]);
                fields.push(field);
                pos = i + 1;
                proof {
                    assert(rest.subrange(0, i - p) =~= s@.subrange(p, i as int));
                    assert(rest.skip(i - p + 1) =~= s@.skip(i + 1));
                    assert(spec_fields(rest) == seq![s@.subrange(p, i as int)] + spec_fields(
                        s@.skip(i + 1),
                    ));
                    assert(fields.deep_view() =~~= done.push(field@));
                    assert(done + spec_fields(rest) =~~= fields.deep_view() + spec_fields(
                        s@.skip(i + 1),
                    ));
                }
            },
            None => {
                let field = slice_to_vec(&s[pos..s.len()]);
                fields.push(field);
                proof {
                    assert(spec_fields(rest) == seq![rest]);
                    assert(fields.deep_view() =~~= done.push(field@));
                    assert(spec_fields(s@) =~~= fields.deep_view());
                }
                return fields;
            },
        }
    }
}

/// Whether `b` is a decimal digit.
pub open spec fn is_ascii_digit(b: u8) -> bool {
    48 <= b <= 57
}

/// The number a sequence of decimal digits stands for, most significant
/// first.
pub open spec fn digits_value(s: Seq<u8>) -> int
    decreases s.len(),
{
    if s.len() == 0 {
        0
    } else {
        digits_value(s.drop_last()) * 10 + (s.last() - 48)
    }
}

/// The digits of an unsigned decimal number: everything after the optional
/// leading plus sign.
pub open spec fn unsigned_digits(s: Seq<u8>) -> Seq<u8> {
    if s.len() > 0 && s[0] == PLUS {
        s.skip(1)
    } else {
        s
    }
}

/// Whether `s` is an unsigned decimal number a `usize` can hold: an
/// optional plus sign, then at least one digit and nothing else, with a
/// value of at most `usize::MAX`.
pub open spec fn is_valid_unsigned(s: Seq<u8>) -> bool {
    let d = unsigned_digits(s);
    &&& d.len() > 0
    &&& forall|i: int| 0 <= i < d.len() ==> is_ascii_digit(#[trigger] d[i])
    &&& digits_value(d) <= usize::MAX
}

/// The value of an unsigned decimal number.
pub open spec fn unsigned_value(s: Seq<u8>) -> int {
    digits_value(unsigned_digits(s))
}

/// A sequence of digits stands for a number that is not negative.
pub proof fn lemma_digits_value_nonneg(s: Seq<u8>)
    requires
        forall|i: int| 0 <= i < s.len() ==> is_ascii_digit(#[trigger] s[i]),
    ensures
        digits_value(s) >= 0,
    decreases s.len(),
{
    if s.len() > 0 {
        lemma_digits_value_nonneg(s.drop_last());
    }
}

/// Extending a sequence of digits never shrinks the number it stands for.
pub proof fn lemma_digits_value_prefix_le(s: Seq<u8>, k: int)
    requires
        forall|i: int| 0 <= i < s.len() ==> is_ascii_digit(#[trigger] s[i]),
        0 <= k <= s.len(),
    ensures
        digits_value(s.subrange(0, k)) <= digits_value(s),
    decreases s.len() - k,
{
    if k == s.len() {
        assert(s.subrange(0, k) =~= s);
    } else {
        lemma_digits_value_prefix_le(s, k + 1);
        let p = s.subrange(0, k + 1);
        assert(p.drop_last() =~= s.subrange(0, k));
        lemma_digits_value_nonneg(s.subrange(0, k));
        assert(digits_value(s.subrange(0, k)) <= digits_value(p));
    }
}

/// Parses an unsigned decimal number, exactly when `s` is a valid one.
pub fn parse_unsigned(s: &[u8]) -> (r: Option<usize>)
    ensures
        match r {
            Some(v) => is_valid_unsigned(s@) && v == unsigned_value(s@),
            None => !is_valid_unsigned(s@),
        },
{
    let start: usize = if s.len() > 0 && s[0] == PLUS {
        1
    } else {
        0
    };
    let ghost d = unsigned_digits(s@);
    proof {
        assert(d =~= s@.skip(start as int));
    }
    if s.len() == start {
        return None;
    }
    let mut acc: usize = 0;
    let mut i = start;
    while i < s.len()
        invariant
            start <= i <= s@.len(),
            d == unsigned_digits(s@),
            d == s@.skip(start as int),
            d.len() == s@.len() - start,
            forall|j: int| start <= j < i ==> is_ascii_digit(#[trigger] s@[j]),
            acc == digits_value(s@.subrange(start as int, i as int)),
        decreases s@.len() - i,
    {
        let b = s[i];
        if !(b >= 48 && b <= 57) {
            assert(!is_valid_unsigned(s@)) by {
                assert(d[i - start] == s@[i as int]);
            }
            return None;
        }
        let digit = (b - 48) as usize;
        let ghost prefix = s@.subrange(start as int, i as int);
        let ghost extended = s@.subrange(start as int, i + 1);
        proof {
            assert(extended.drop_last() =~= prefix);
            assert(digits_value(extended) == acc * 10 + digit);
        }
        if acc > usize::MAX / 10 || (acc == usize::MAX / 10 && digit > usize::MAX % 10) {
            assert(!is_valid_unsigned(s@)) by {
                assert(acc * 10 + digit > usize::MAX) by (nonlinear_arith)
                    requires
                        acc > usize::MAX / 10 || (acc == usize::MAX / 10 && digit > usize::MAX
                            % 10),
                        usize::MAX == 10 * (usize::MAX / 10) + usize::MAX % 10,
                        digit >= 0;
                if forall|j: int| 0 <= j < d.len() ==> is_ascii_digit(#[trigger] d[j]) {
                    assert(extended =~= d.subrange(0, i + 1 - start));
                    lemma_digits_value_prefix_le(d, i + 1 - start);
                    assert(digits_value(d) > usize::MAX);
                }
            }
            return None;
        }
        proof {
            assert(acc * 10 + digit <= usize::MAX) by (nonlinear_arith)
                requires
                    acc < usize::MAX / 10 || (acc == usize::MAX / 10 && digit <= usize::MAX % 10),
                    usize::MAX == 10 * (usize::MAX / 10) + usize::MAX % 10,
                    digit <= 9,
                    acc >= 0;
        }
        acc = acc * 10 + digit;
        i = i + 1;
    }
    proof {
        assert(s@.subrange(start as int, s@.len() as int) =~= d);
        assert(forall|j: int| 0 <= j < d.len() ==> is_ascii_digit(#[trigger] d[j]));
    }
    Some(acc)
}

} // verus!
