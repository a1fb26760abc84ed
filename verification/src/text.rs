//! Character-level utilities for the atlas line format: whitespace trimming,
//! prefix tests, `key: value` splitting, comma splitting and decimal number
//! parsing, each with an exact specification over `Seq<char>`.

use vstd::prelude::*;

verus! {

/// The whitespace characters stripped from line ends and around values: the
/// closed Unicode white-space set — space, horizontal tab, line feed,
/// vertical tab, form feed, carriage return, next line, no-break space,
/// ogham space mark, the en-quad to hair-space range, line and paragraph
/// separators, narrow no-break space, medium mathematical space and
/// ideographic space.
pub open spec fn is_space_char(c: char) -> bool {
    c == ' ' || c == '\t' || c == '\n' || c == '\r' || c == '\u{b}' || c == '\u{c}' || c
        == '\u{85}' || c == '\u{a0}' || c == '\u{1680}' || (0x2000 <= c as u32 <= 0x200a) || c
        == '\u{2028}' || c == '\u{2029}' || c == '\u{202f}' || c == '\u{205f}' || c == '\u{3000}'
}

fn is_space(c: char) -> (r: bool)
    ensures
        r == is_space_char(c),
{
    if c == ' ' || c == '\t' || c == '\n' || c == '\r' || c == '\u{b}' || c == '\u{c}' {
        true
    } else {
        let u = c as u32;
        u == 0x85 || u == 0xa0 || u == 0x1680 || (u >= 0x2000 && u <= 0x200a) || u == 0x2028
            || u == 0x2029 || u == 0x202f || u == 0x205f || u == 0x3000
    }
}

/// The view of a sequence of `String`s as a sequence of character sequences.
pub open spec fn strs_view(v: Seq<String>) -> Seq<Seq<char>> {
    v.map_values(|x: String| x@)
}

pub open spec fn trim_left(s: Seq<char>) -> Seq<char>
    decreases s.len(),
{
    if s.len() > 0 && is_space_char(s[0]) {
        trim_left(s.drop_first())
    } else {
        s
    }
}

pub open spec fn trim_right(s: Seq<char>) -> Seq<char>
    decreases s.len(),
{
    if s.len() > 0 && is_space_char(s.last()) {
        trim_right(s.drop_last())
    } else {
        s
    }
}

/// The line-trimming function: surrounding whitespace removed.
pub open spec fn trim_spec(s: Seq<char>) -> Seq<char> {
    trim_right(trim_left(s))
}

proof fn lemma_trim_left_skip(s: Seq<char>, a: int)
    requires
        0 <= a <= s.len(),
        forall|j: int| 0 <= j < a ==> is_space_char(s[j]),
    ensures
        trim_left(s) == trim_left(s.subrange(a, s.len() as int)),
    decreases a,
{
    if a == 0 {
        assert(s.subrange(0, s.len() as int) =~= s);
    } else {
        let s1 = s.drop_first();
        assert(s1 =~= s.subrange(1, s.len() as int));
        lemma_trim_left_skip(s1, a - 1);
        assert(s1.subrange(a - 1, s1.len() as int) =~= s.subrange(a, s.len() as int));
    }
}

proof fn lemma_trim_right_truncate(s: Seq<char>, b: int)
    requires
        0 <= b <= s.len(),
        forall|j: int| b <= j < s.len() ==> is_space_char(s[j]),
    ensures
        trim_right(s) == trim_right(s.subrange(0, b)),
    decreases s.len() - b,
{
    if b == s.len() {
        assert(s.subrange(0, s.len() as int) =~= s);
    } else {
        let s1 = s.drop_last();
        assert(s1 =~= s.subrange(0, s.len() as int - 1));
        lemma_trim_right_truncate(s1, b);
        assert(s1.subrange(0, b) =~= s.subrange(0, b));
    }
}

/// Trims surrounding whitespace, as every line and every keyed value is
/// trimmed before it is interpreted.
pub fn trim_str(s: &str) -> (r: String)
    ensures
        r@ == trim_spec(s@),
{
    let len: usize = s.unicode_len();
    let mut a: usize = 0;
    while a < len && is_space(s.get_char(a))
        invariant
            0 <= a <= len,
            len == s@.len(),
            forall|j: int| 0 <= j < a ==> is_space_char(s@[j]),
        decreases len - a,
    {
        a = a + 1;
    }
    let mut b: usize = len;
    while b > a && is_space(s.get_char(b - 1))
        invariant
            a <= b <= len,
            len == s@.len(),
            a == len || !is_space_char(s@[a as int]),
            forall|j: int| b <= j < len ==> is_space_char(s@[j]),
        decreases b,
    {
        b = b - 1;
    }
    let sub: &str = s.substring_char(a, b);
    let r = String::from_str(sub);
    proof {
        lemma_trim_left_skip(s@, a as int);
        let t = s@.subrange(a as int, len as int);
        assert(trim_left(t) == t);
        lemma_trim_right_truncate(t, b as int - a as int);
        let t2 = t.subrange(0, b as int - a as int);
        assert(t2 =~= s@.subrange(a as int, b as int));
        assert(trim_right(t2) == t2);
    }
    r
}

/// Whether `p` is a prefix of `s`; the parser's key test on each line.
pub open spec fn starts_with_spec(s: Seq<char>, p: Seq<char>) -> bool {
    p.len() <= s.len() && s.subrange(0, p.len() as int) == p
}

pub fn str_starts_with(s: &str, p: &str) -> (r: bool)
    ensures
        r == starts_with_spec(s@, p@),
{
    let sl: usize = s.unicode_len();
    let pl: usize = p.unicode_len();
    if pl > sl {
        return false;
    }
    let mut i: usize = 0;
    while i < pl
        invariant
            0 <= i <= pl,
            pl == p@.len(),
            sl == s@.len(),
            pl <= sl,
            forall|j: int| 0 <= j < i ==> s@[j] == p@[j],
        decreases pl - i,
    {
        if s.get_char(i) != p.get_char(i) {
            proof {
                assert(s@.subrange(0, pl as int) != p@) by {
                    assert(s@.subrange(0, pl as int)[i as int] != p@[i as int]);
                }
            }
            return false;
        }
        i = i + 1;
    }
    proof {
        assert(s@.subrange(0, pl as int) =~= p@);
    }
    true
}

/// The code point of `c` with an ASCII capital letter lowered; any other
/// character is left as it is.
pub open spec fn lower_u32(c: char) -> u32 {
    if 65 <= c as u32 <= 90 {
        (c as u32 + 32) as u32
    } else {
        c as u32
    }
}

fn lower_code(c: char) -> (r: u32)
    ensures
        r == lower_u32(c),
{
    let u = c as u32;
    if u >= 65 && u <= 90 {
        u + 32
    } else {
        u
    }
}

/// Whether `s` and `p` agree once ASCII capitals are lowered: the
/// lower-cased comparison used for case-insensitive spellings.
pub open spec fn eq_ignore_ascii_case_spec(s: Seq<char>, p: Seq<char>) -> bool {
    s.len() == p.len() && forall|i: int| 0 <= i < s.len() ==> lower_u32(s[i]) == lower_u32(p[i])
}

pub fn str_eq_ignore_ascii_case(s: &str, p: &str) -> (r: bool)
    ensures
        r == eq_ignore_ascii_case_spec(s@, p@),
{
    let sl: usize = s.unicode_len();
    let pl: usize = p.unicode_len();
    if sl != pl {
        return false;
    }
    let mut i: usize = 0;
    while i < sl
        invariant
            0 <= i <= sl,
            sl == s@.len(),
            pl == p@.len(),
            sl == pl,
            forall|j: int| 0 <= j < i ==> lower_u32(s@[j]) == lower_u32(p@[j]),
        decreases sl - i,
    {
        if lower_code(s.get_char(i)) != lower_code(p.get_char(i)) {
            proof {
                assert(lower_u32(s@[i as int]) != lower_u32(p@[i as int]));
            }
            return false;
        }
        i = i + 1;
    }
    true
}

/// Everything after the first colon of `s`, or empty when `s` has no colon.
pub open spec fn after_first_colon(s: Seq<char>) -> Seq<char>
    decreases s.len(),
{
    if s.len() == 0 {
        Seq::empty()
    } else if s[0] == ':' {
        s.drop_first()
    } else {
        after_first_colon(s.drop_first())
    }
}

/// The value part of a `key: value` line: the text after the first colon,
/// trimmed of surrounding whitespace.
pub open spec fn extract_value_spec(s: Seq<char>) -> Seq<char> {
    trim_spec(after_first_colon(s))
}

proof fn lemma_after_colon_at(s: Seq<char>, i: int)
    requires
        0 <= i < s.len(),
        s[i] == ':',
        forall|j: int| 0 <= j < i ==> s[j] != ':',
    ensures
        after_first_colon(s) == s.subrange(i + 1, s.len() as int),
    decreases i,
{
    if i == 0 {
        assert(s.drop_first() =~= s.subrange(1, s.len() as int));
    } else {
        let s1 = s.drop_first();
        assert(s1 =~= s.subrange(1, s.len() as int));
        lemma_after_colon_at(s1, i - 1);
        assert(s1.subrange(i, s1.len() as int) =~= s.subrange(i + 1, s.len() as int));
    }
}

/// The text after the first colon of an attribute line, trimmed; the line
/// must contain a colon, which holds of every line that matched a key
/// prefix.
pub fn extract_value(line: &str) -> (r: String)
    requires
        line@.contains(':'),
    ensures
        r@ == extract_value_spec(line@),
{
    let len: usize = line.unicode_len();
    let mut i: usize = 0;
    while i < len && line.get_char(i) != ':'
        invariant
            0 <= i <= len,
            len == line@.len(),
            forall|j: int| 0 <= j < i ==> line@[j] != ':',
        decreases len - i,
    {
        i = i + 1;
    }
    if i == len {
        proof {
            let k = choose|k: int| 0 <= k < line@.len() && line@[k] == ':';
            assert(false);
        }
    }
    proof {
        lemma_after_colon_at(line@, i as int);
    }
    let sub: &str = line.substring_char(i + 1, len);
    trim_str(sub)
}

/// Splitting on commas, as for tuple-valued attributes. The result always
/// has at least one piece; pieces keep their surrounding whitespace.
pub open spec fn split_commas_spec(s: Seq<char>) -> Seq<Seq<char>>
    decreases s.len(),
{
    if s.len() == 0 {
        seq![Seq::<char>::empty()]
    } else {
        let r = split_commas_spec(s.drop_last());
        if s.last() == ',' {
            r.push(Seq::empty())
        } else {
            r.update(r.len() - 1, r.last().push(s.last()))
        }
    }
}

proof fn lemma_split_commas_len(s: Seq<char>)
    ensures
        split_commas_spec(s).len() >= 1,
    decreases s.len(),
{
    if s.len() > 0 {
        lemma_split_commas_len(s.drop_last());
    }
}

pub fn split_commas(s: &str) -> (r: Vec<String>)
    ensures
        strs_view(r@) == split_commas_spec(s@),
{
    let len: usize = s.unicode_len();
    let mut out: Vec<String> = Vec::new();
    let mut p: usize = 0;
    let mut i: usize = 0;
    proof {
        assert(s@.subrange(0, 0) =~= Seq::<char>::empty());
        assert(strs_view(out@).push(s@.subrange(0, 0)) =~~= split_commas_spec(s@.subrange(0, 0)));
    }
    while i < len
        invariant
            0 <= p <= i <= len,
            len == s@.len(),
            split_commas_spec(s@.subrange(0, i as int)) == strs_view(out@).push(
                s@.subrange(p as int, i as int),
            ),
        decreases len - i,
    {
        let ghost pre = s@.subrange(0, i as int);
        let ghost pre1 = s@.subrange(0, i as int + 1);
        proof {
            assert(pre1.drop_last() =~= pre);
            lemma_split_commas_len(pre);
        }
        let c = s.get_char(i);
        if c == ',' {
            let piece = String::from_str(s.substring_char(p, i));
            out.push(piece);
            proof {
                assert(split_commas_spec(pre1) =~~= strs_view(out@).push(
                    s@.subrange(i as int + 1, i as int + 1),
                ));
            }
            p = i + 1;
        } else {
            proof {
                let old_map = strs_view(out@).push(s@.subrange(p as int, i as int));
                assert(s@.subrange(p as int, i as int).push(s@[i as int]) =~= s@.subrange(
                    p as int,
                    i as int + 1,
                ));
                assert(split_commas_spec(pre1) =~~= strs_view(out@).push(
                    s@.subrange(p as int, i as int + 1),
                ));
            }
        }
        i = i + 1;
    }
    let piece = String::from_str(s.substring_char(p, len));
    out.push(piece);
    proof {
        assert(s@.subrange(0, len as int) =~= s@);
        assert(strs_view(out@) =~~= split_commas_spec(s@));
    }
    out
}

/// Whether `c` is a decimal digit.
pub open spec fn is_digit_char(c: char) -> bool {
    48 <= c as u32 <= 57
}

/// The numeric value of a digit character; zero for any other character, so
/// that digit strings always have a non-negative value.
pub open spec fn digit_val(c: char) -> nat {
    if is_digit_char(c) {
        (c as u32 - 48) as nat
    } else {
        0
    }
}

pub open spec fn all_digits(s: Seq<char>) -> bool {
    forall|i: int| 0 <= i < s.len() ==> is_digit_char(s[i])
}

/// The value of a digit string read in base ten.
pub open spec fn digits_val(s: Seq<char>) -> nat
    decreases s.len(),
{
    if s.len() == 0 {
        0
    } else {
        digits_val(s.drop_last()) * 10 + digit_val(s.last())
    }
}

proof fn lemma_digits_val_prefix(s: Seq<char>, j: int)
    requires
        0 <= j <= s.len(),
    ensures
        digits_val(s.subrange(0, j)) <= digits_val(s),
    decreases s.len() - j,
{
    if j == s.len() {
        assert(s.subrange(0, j) =~= s);
    } else {
        assert(s.subrange(0, j + 1).drop_last() =~= s.subrange(0, j));
        assert(digits_val(s.subrange(0, j)) <= digits_val(s.subrange(0, j + 1)));
        lemma_digits_val_prefix(s, j + 1);
    }
}

/// Reads the digit run `s[from..]` in base ten. Returns its value when the
/// run is non-empty, all digits, and no larger than `limit`; `None`
/// otherwise.
fn parse_digits(s: &str, from: usize, limit: u128) -> (r: Option<u128>)
    requires
        from <= s@.len(),
        limit <= u64::MAX as u128 + 1,
    ensures
        ({
            let t = s@.subrange(from as int, s@.len() as int);
            match r {
                Some(v) => t.len() > 0 && all_digits(t) && v as nat == digits_val(t) && v
                    <= limit,
                None => !(t.len() > 0 && all_digits(t) && digits_val(t) <= limit),
            }
        }),
{
    let len: usize = s.unicode_len();
    let ghost t = s@.subrange(from as int, len as int);
    if from == len {
        return None;
    }
    let mut acc: u128 = 0;
    let mut i: usize = from;
    proof {
        assert(s@.subrange(from as int, from as int) =~= Seq::<char>::empty());
    }
    while i < len
        invariant
            from <= i <= len,
            len == s@.len(),
            t == s@.subrange(from as int, len as int),
            forall|j: int| from <= j < i ==> is_digit_char(s@[j]),
            acc as nat == digits_val(s@.subrange(from as int, i as int)),
            acc <= limit,
            limit <= u64::MAX as u128 + 1,
        decreases len - i,
    {
        let ghost pre = s@.subrange(from as int, i as int);
        let ghost pre1 = s@.subrange(from as int, i as int + 1);
        proof {
            assert(pre1.drop_last() =~= pre);
        }
        let c = s.get_char(i);
        let u: u32 = c as u32;
        if u < 48 || u > 57 {
            proof {
                assert(!all_digits(t)) by {
                    assert(t[i - from] == s@[i as int]);
                }
            }
            return None;
        }
        let wide: u128 = acc * 10 + (u - 48) as u128;
        proof {
            assert(wide as nat == digits_val(pre1));
        }
        if wide > limit {
            proof {
                if all_digits(t) {
                    assert(t.subrange(0, i as int + 1 - from) =~= pre1);
                    lemma_digits_val_prefix(t, i as int + 1 - from);
                }
            }
            return None;
        }
        acc = wide;
        i = i + 1;
    }
    proof {
        assert(t =~= s@.subrange(from as int, i as int));
        assert(all_digits(t));
    }
    Some(acc)
}

/// Unsigned decimal parsing: an optional leading `+`, then at least one
/// digit, with values above `usize::MAX` rejected.
pub open spec fn parse_usize_spec(s: Seq<char>) -> Option<usize> {
    let t = if s.len() > 0 && s[0] == '+' {
        s.drop_first()
    } else {
        s
    };
    if t.len() > 0 && all_digits(t) && digits_val(t) <= usize::MAX {
        Some(digits_val(t) as usize)
    } else {
        None
    }
}

pub fn parse_usize(s: &str) -> (r: Option<usize>)
    ensures
        r == parse_usize_spec(s@),
{
    let len: usize = s.unicode_len();
    let start: usize = if len > 0 && s.get_char(0) == '+' {
        1
    } else {
        0
    };
    let ghost t = if s@.len() > 0 && s@[0] == '+' {
        s@.drop_first()
    } else {
        s@
    };
    proof {
        assert(t =~= s@.subrange(start as int, len as int));
    }
    match parse_digits(s, start, usize::MAX as u128) {
        Some(v) => Some(v as usize),
        None => None,
    }
}

/// Signed decimal parsing: an optional leading `+` or `-`, then at least one
/// digit, with values outside `isize`'s range rejected.
pub open spec fn parse_isize_spec(s: Seq<char>) -> Option<isize> {
    if s.len() > 0 && s[0] == '-' {
        let t = s.drop_first();
        if t.len() > 0 && all_digits(t) && -(digits_val(t) as int) >= isize::MIN {
            Some((-(digits_val(t) as int)) as isize)
        } else {
            None
        }
    } else {
        let t = if s.len() > 0 && s[0] == '+' {
            s.drop_first()
        } else {
            s
        };
        if t.len() > 0 && all_digits(t) && digits_val(t) <= isize::MAX {
            Some(digits_val(t) as isize)
        } else {
            None
        }
    }
}

pub fn parse_isize(s: &str) -> (r: Option<isize>)
    ensures
        r == parse_isize_spec(s@),
{
    let len: usize = s.unicode_len();
    if len > 0 && s.get_char(0) == '-' {
        let ghost t = s@.drop_first();
        proof {
            assert(t =~= s@.subrange(1, len as int));
        }
        let limit: u128 = (isize::MAX as u128) + 1;
        match parse_digits(s, 1, limit) {
            Some(v) => {
                if v == limit {
                    proof {
                        assert((-(digits_val(t) as int)) as isize == isize::MIN);
                    }
                    Some(isize::MIN)
                } else {
                    Some(-(v as isize))
                }
            },
            None => None,
        }
    } else {
        let start: usize = if len > 0 && s.get_char(0) == '+' {
            1
        } else {
            0
        };
        let ghost t = if s@.len() > 0 && s@[0] == '+' {
            s@.drop_first()
        } else {
            s@
        };
        proof {
            assert(t =~= s@.subrange(start as int, len as int));
        }
        match parse_digits(s, start, isize::MAX as u128) {
            Some(v) => Some(v as isize),
            None => None,
        }
    }
}

/// Boolean spellings: exactly `true` or `false`.
pub open spec fn parse_bool_spec(s: Seq<char>) -> Option<bool> {
    if s == "true"@ {
        Some(true)
    } else if s == "false"@ {
        Some(false)
    } else {
        None
    }
}

pub fn parse_bool(s: &String) -> (r: Option<bool>)
    ensures
        r == parse_bool_spec(s@),
{
    if *s == String::from_str("true") {
        Some(true)
    } else if *s == String::from_str("false") {
        Some(false)
    } else {
        None
    }
}

} // verus!
