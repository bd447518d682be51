//! Verified text helpers: equality, ASCII trimming, splitting on a
//! separator, joining, and digit parsing. The log and version parsers
//! are built from these.

use vstd::prelude::*;

verus! {

/// The views of a vector of strings.
pub open spec fn strings_view(v: Seq<String>) -> Seq<Seq<char>> {
    Seq::new(v.len(), |i: int| v[i]@)
}

/// ASCII whitespace, the only kind trimmed here.
pub open spec fn is_ws(c: char) -> bool {
    c == ' ' || c == '\t' || c == '\r' || c == '\n'
}

/// Length of the whitespace run at the front.
pub open spec fn ws_prefix_len(s: Seq<char>) -> int
    decreases s.len(),
{
    if s.len() == 0 || !is_ws(s[0]) {
        0
    } else {
        1 + ws_prefix_len(s.drop_first())
    }
}

/// Length of the whitespace run at the back.
pub open spec fn ws_suffix_len(s: Seq<char>) -> int
    decreases s.len(),
{
    if s.len() == 0 || !is_ws(s.last()) {
        0
    } else {
        1 + ws_suffix_len(s.drop_last())
    }
}

/// The string with ASCII whitespace removed from both ends.
pub open spec fn spec_trim(s: Seq<char>) -> Seq<char> {
    if ws_prefix_len(s) == s.len() {
        Seq::empty()
    } else {
        s.subrange(ws_prefix_len(s), s.len() - ws_suffix_len(s))
    }
}

/// The pieces of `s` between occurrences of `sep`, scanning from
/// position `i` with the current piece open since `start`. Splitting
/// yields one piece more than there are separators; empty pieces are
/// kept.
pub open spec fn spec_split_from(s: Seq<char>, sep: char, start: int, i: int) -> Seq<Seq<char>>
    recommends
        0 <= start <= i <= s.len(),
    decreases s.len() - i,
{
    if i < 0 || i >= s.len() {
        seq![s.subrange(start, s.len() as int)]
    } else if s[i] == sep {
        seq![s.subrange(start, i)] + spec_split_from(s, sep, i + 1, i + 1)
    } else {
        spec_split_from(s, sep, start, i + 1)
    }
}

/// The pieces of `s` between occurrences of `sep`.
pub open spec fn spec_split(s: Seq<char>, sep: char) -> Seq<Seq<char>> {
    spec_split_from(s, sep, 0, 0)
}

/// The pieces joined with `sep` between consecutive pieces.
pub open spec fn spec_join(parts: Seq<Seq<char>>, sep: Seq<char>) -> Seq<char>
    decreases parts.len(),
{
    if parts.len() == 0 {
        Seq::empty()
    } else if parts.len() == 1 {
        parts[0]
    } else {
        parts[0] + sep + spec_join(parts.drop_first(), sep)
    }
}

/// A decimal digit.
pub open spec fn is_digit(c: char) -> bool {
    48 <= (c as u32) <= 57
}

/// Its value.
pub open spec fn digit_val(c: char) -> int {
    (c as u32) - 48
}

/// The unsigned decimal value of `s`: `None` unless `s` is non-empty
/// and all digits. No width limit; the caller bounds the value.
pub open spec fn spec_parse_uint(s: Seq<char>) -> Option<int>
    decreases s.len(),
{
    if s.len() == 0 {
        None
    } else if !is_digit(s.last()) {
        None
    } else if s.len() == 1 {
        Some(digit_val(s.last()))
    } else {
        match spec_parse_uint(s.drop_last()) {
            None => None,
            Some(v) => Some(10 * v + digit_val(s.last())),
        }
    }
}

/// `s` parsed as a `u8`: a non-empty all-digit string whose value fits.
pub open spec fn spec_parse_u8(s: Seq<char>) -> Option<u8> {
    match spec_parse_uint(s) {
        None => None,
        Some(v) => if v <= 255 {
            Some(v as u8)
        } else {
            None
        },
    }
}

/// Position of the first occurrence of `c` in `s`, or -1 when absent.
pub open spec fn first_index_of(s: Seq<char>, c: char) -> int
    decreases s.len(),
{
    if s.len() == 0 {
        -1
    } else if s[0] == c {
        0
    } else {
        let r = first_index_of(s.drop_first(), c);
        if r < 0 {
            -1
        } else {
            1 + r
        }
    }
}

/// A scan that saw no `c` before position `i` pins `first_index_of`.
proof fn lemma_first_index_of(s: Seq<char>, c: char, i: int)
    requires
        0 <= i <= s.len(),
        forall|j: int| 0 <= j < i ==> s[j] != c,
        i < s.len() ==> s[i] == c,
    ensures
        first_index_of(s, c) == if i < s.len() {
            i
        } else {
            -1
        },
    decreases i,
{
    if i == 0 {
    } else {
        let t = s.drop_first();
        assert forall|j: int| 0 <= j < i - 1 implies t[j] != c by {
            assert(t[j] == s[j + 1]);
        }
        if i - 1 < t.len() {
            assert(t[i - 1] == s[i]);
        }
        lemma_first_index_of(t, c, i - 1);
    }
}

/// Finds the first occurrence of `c` in `s`.
pub fn find_char(s: &str, c: char) -> (r: Option<usize>)
    ensures
        match r {
            Some(i) => first_index_of(s@, c) == i,
            None => first_index_of(s@, c) == -1,
        },
{
    let len = s.unicode_len();
    let mut i: usize = 0;
    while i < len
        invariant
            i <= len,
            len == s@.len(),
            forall|j: int| 0 <= j < i ==> s@[j] != c,
        decreases len - i,
    {
        if s.get_char(i) == c {
            proof {
                lemma_first_index_of(s@, c, i as int);
            }
            return Some(i);
        }
        i = i + 1;
    }
    proof {
        lemma_first_index_of(s@, c, len as int);
    }
    None
}

/// Character-wise string equality.
pub fn str_eq(a: &str, b: &str) -> (r: bool)
    ensures
        r == (a@ == b@),
{
    let la = a.unicode_len();
    let lb = b.unicode_len();
    if la != lb {
        return false;
    }
    let mut i: usize = 0;
    while i < la
        invariant
            i <= la,
            la == a@.len(),
            la == b@.len(),
            forall|j: int| 0 <= j < i ==> a@[j] == b@[j],
        decreases la - i,
    {
        if a.get_char(i) != b.get_char(i) {
            return false;
        }
        i = i + 1;
    }
    proof {
        assert(a@ =~= b@);
    }
    true
}

/// Whether `c` is ASCII whitespace.
pub fn is_ws_char(c: char) -> (r: bool)
    ensures
        r == is_ws(c),
{
    c == ' ' || c == '\t' || c == '\r' || c == '\n'
}

/// A whitespace run of length `a` at the front, stopped by a
/// non-whitespace character, pins `ws_prefix_len`.
proof fn lemma_ws_prefix(s: Seq<char>, a: int)
    requires
        0 <= a <= s.len(),
        forall|j: int| 0 <= j < a ==> is_ws(s[j]),
        a < s.len() ==> !is_ws(s[a]),
    ensures
        ws_prefix_len(s) == a,
    decreases a,
{
    if a == 0 {
    } else {
        assert(is_ws(s[0]));
        let t = s.drop_first();
        assert forall|j: int| 0 <= j < a - 1 implies is_ws(t[j]) by {
            assert(t[j] == s[j + 1]);
        }
        if a - 1 < t.len() {
            assert(t[a - 1] == s[a]);
        }
        lemma_ws_prefix(t, a - 1);
    }
}

/// A whitespace run of length `b` at the back, stopped by a
/// non-whitespace character, pins `ws_suffix_len`.
proof fn lemma_ws_suffix(s: Seq<char>, b: int)
    requires
        0 <= b <= s.len(),
        forall|j: int| s.len() - b <= j < s.len() ==> is_ws(s[j]),
        b < s.len() ==> !is_ws(s[s.len() - b - 1]),
    ensures
        ws_suffix_len(s) == b,
    decreases b,
{
    if b == 0 {
    } else {
        assert(is_ws(s.last()));
        let t = s.drop_last();
        assert forall|j: int| t.len() - (b - 1) <= j < t.len() implies is_ws(t[j]) by {
            assert(t[j] == s[j]);
        }
        lemma_ws_suffix(t, b - 1);
    }
}

/// ASCII-trims a string: the result is the input without its leading
/// and trailing whitespace runs.
pub fn trim_str(s: &str) -> (r: String)
    ensures
        r@ == spec_trim(s@),
{
    let len = s.unicode_len();
    let mut a: usize = 0;
    while a < len && is_ws_char(s.get_char(a))
        invariant
            a <= len,
            len == s@.len(),
            forall|j: int| 0 <= j < a ==> is_ws(s@[j]),
        decreases len - a,
    {
        a = a + 1;
    }
    proof {
        lemma_ws_prefix(s@, a as int);
    }
    if a == len {
        proof {
            assert(spec_trim(s@) =~= Seq::<char>::empty());
        }
        return String::new();
    }
    let mut b: usize = 0;
    while b < len - a && is_ws_char(s.get_char(len - b - 1))
        invariant
            0 <= b <= len - a,
            a < len,
            len == s@.len(),
            forall|j: int| len - b <= j < len ==> is_ws(s@[j]),
        decreases len - a - b,
    {
        b = b + 1;
    }
    proof {
        if b < len {
            if b == len - a {
                assert(!is_ws(s@[len - b - 1]));
            }
        }
        lemma_ws_suffix(s@, b as int);
    }
    let piece = s.substring_char(a, len - b);
    let r = String::from_str(piece);
    proof {
        assert(r@ =~= spec_trim(s@));
    }
    r
}

/// Splits `s` at every occurrence of `sep`: one piece more than there
/// are separators, empty pieces kept, in order.
pub fn split_char(s: &str, sep: char) -> (r: Vec<String>)
    ensures
        r@.len() == spec_split(s@, sep).len(),
        forall|k: int|
            0 <= k < r@.len() ==> (#[trigger] r@[k])@ == spec_split(s@, sep)[k],
{
    let len = s.unicode_len();
    let mut parts: Vec<String> = Vec::new();
    let mut start: usize = 0;
    let mut i: usize = 0;
    proof {
        assert(Seq::<Seq<char>>::empty() + spec_split_from(s@, sep, 0, 0) =~= spec_split_from(
            s@,
            sep,
            0,
            0,
        ));
    }
    while i < len
        invariant
            0 <= start <= i <= len,
            len == s@.len(),
            spec_split(s@, sep) == strings_view(parts@) + spec_split_from(
                s@,
                sep,
                start as int,
                i as int,
            ),
        decreases len - i,
    {
        if s.get_char(i) == sep {
            let ghost prev = parts@;
            let piece = String::from_str(s.substring_char(start, i));
            parts.push(piece);
            proof {
                assert(spec_split_from(s@, sep, start as int, i as int) == seq![
                    s@.subrange(start as int, i as int),
                ] + spec_split_from(s@, sep, i + 1, i + 1));
                assert(strings_view(parts@) =~= strings_view(prev) + seq![
                    s@.subrange(start as int, i as int),
                ]);
                assert((strings_view(prev) + seq![s@.subrange(start as int, i as int)])
                    + spec_split_from(s@, sep, i + 1, i + 1) =~= strings_view(prev) + (seq![
                    s@.subrange(start as int, i as int),
                ] + spec_split_from(s@, sep, i + 1, i + 1)));
            }
            start = i + 1;
        }
        i = i + 1;
    }
    let ghost prev = parts@;
    let piece = String::from_str(s.substring_char(start, len));
    parts.push(piece);
    proof {
        assert(spec_split_from(s@, sep, start as int, len as int) == seq![
            s@.subrange(start as int, len as int),
        ]);
        assert(strings_view(parts@) =~= strings_view(prev) + seq![
            s@.subrange(start as int, len as int),
        ]);
        assert(strings_view(parts@) =~= spec_split(s@, sep));
        assert forall|k: int| 0 <= k < parts@.len() implies (#[trigger] parts@[k])@
            == spec_split(s@, sep)[k] by {
            assert(strings_view(parts@)[k] == parts@[k]@);
        }
    }
    parts
}

/// Appending one piece to a join: the separator lands between the old
/// join and the new piece.
proof fn lemma_join_push(parts: Seq<Seq<char>>, sep: Seq<char>, x: Seq<char>)
    ensures
        spec_join(parts.push(x), sep) == if parts.len() == 0 {
            x
        } else {
            spec_join(parts, sep) + sep + x
        },
    decreases parts.len(),
{
    let p = parts.push(x);
    if parts.len() == 0 {
        assert(p.len() == 1);
        assert(p[0] == x);
    } else {
        assert(p.drop_first() =~= parts.drop_first().push(x));
        lemma_join_push(parts.drop_first(), sep, x);
        if parts.len() == 1 {
            assert(spec_join(parts, sep) == parts[0]);
            assert(p[0] == parts[0]);
            assert(spec_join(p.drop_first(), sep) == x);
        } else {
            assert(spec_join(p, sep) == p[0] + sep + spec_join(p.drop_first(), sep));
            assert(p[0] == parts[0]);
            assert((parts[0] + sep + (spec_join(parts.drop_first(), sep) + sep + x)) =~= ((
            parts[0] + sep + spec_join(parts.drop_first(), sep)) + sep + x));
        }
    }
}

/// Joins the pieces from position `from` on with `sep` between
/// consecutive pieces.
pub fn join_from(parts: &Vec<String>, from: usize, sep: &str) -> (r: String)
    requires
        from <= parts@.len(),
    ensures
        r@ == spec_join(strings_view(parts@).skip(from as int), sep@),
{
    let mut r = String::new();
    let mut i: usize = from;
    proof {
        assert(strings_view(parts@).skip(from as int).take(0) =~= Seq::<Seq<char>>::empty());
    }
    while i < parts.len()
        invariant
            from <= i <= parts@.len(),
            r@ == spec_join(
                strings_view(parts@).skip(from as int).take(i - from),
                sep@,
            ),
        decreases parts@.len() - i,
    {
        let ghost sv = strings_view(parts@).skip(from as int);
        proof {
            assert(sv.take(i - from + 1) =~= sv.take(i - from).push(sv[i - from]));
            assert(sv[i - from] == parts@[i as int]@);
            lemma_join_push(sv.take(i - from), sep@, sv[i - from]);
        }
        if i > from {
            r.append(sep);
        }
        r.append(parts[i].as_str());
        i = i + 1;
    }
    proof {
        assert(strings_view(parts@).skip(from as int).take(parts@.len() - from)
            =~= strings_view(parts@).skip(from as int));
    }
    r
}

/// Parses a non-empty all-digit string as a `u8`; anything else,
/// including an overflowing value, is `None`.
pub fn parse_u8_digits(s: &str) -> (r: Option<u8>)
    ensures
        r == spec_parse_u8(s@),
{
    let len = s.unicode_len();
    if len == 0 {
        return None;
    }
    let mut v: u64 = 0;
    let mut i: usize = 0;
    while i < len
        invariant
            1 <= len == s@.len(),
            i <= len,
            i == 0 ==> v == 0,
            i > 0 ==> {
                &&& spec_parse_uint(s@.take(i as int)) is Some
                &&& {
                    let tv = spec_parse_uint(s@.take(i as int))->Some_0;
                    0 <= tv && ((tv <= 255 && v == tv) || (tv > 255 && v == 300))
                }
            },
        decreases len - i,
    {
        let c = s.get_char(i);
        let cu = c as u32;
        if cu < 48 || cu > 57 {
            proof {
                lemma_parse_uint_nondigit(s@, i as int);
            }
            return None;
        }
        let d = (cu - 48) as u64;
        proof {
            assert(s@.take(i + 1).drop_last() =~= s@.take(i as int));
            assert(s@.take(i + 1).last() == s@[i as int]);
            if i > 0 {
                lemma_parse_uint_grows(spec_parse_uint(s@.take(i as int))->Some_0, digit_val(c));
            }
        }
        if v <= 255 {
            v = v * 10 + d;
            if v > 255 {
                v = 300;
            }
        }
        i = i + 1;
    }
    proof {
        assert(s@.take(len as int) =~= s@);
    }
    if v <= 255 {
        Some(v as u8)
    } else {
        None
    }
}

/// A ten-fold step never shrinks a digit accumulator.
proof fn lemma_parse_uint_grows(v: int, d: int)
    requires
        v >= 0,
        d >= 0,
    ensures
        10 * v + d >= v,
        10 * v + d > 255 || v <= 255,
{
}

/// A non-digit anywhere makes the whole string unparsable.
proof fn lemma_parse_uint_nondigit(s: Seq<char>, i: int)
    requires
        0 <= i < s.len(),
        !is_digit(s[i]),
    ensures
        spec_parse_uint(s) is None,
    decreases s.len(),
{
    if s.len() > 0 && i < s.len() - 1 {
        lemma_parse_uint_nondigit(s.drop_last(), i);
    }
}

} // verus!
