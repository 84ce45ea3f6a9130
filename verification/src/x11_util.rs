//! The identity resolver's parsing step: decoding the raw output of the
//! external window-property query and extracting the `(instance, class)`
//! identity pair from a line of the form `WM_CLASS = "<instance>", "<class>"`.
//! An identity is a pair of non-empty strings; every malformed input — an
//! empty segment included — collapses to "no identity", and the parser never
//! fails hard.

use vstd::prelude::*;
use vstd::string::StrSliceExecFns;
use crate::text::str_eq;

verus! {

/// Whether `c` is a whitespace character (the Unicode `White_Space` set),
/// the class of characters that trimming removes.
pub open spec fn is_ws(c: char) -> bool {
    let u = c as u32;
    u == 0x20 || (0x09 <= u && u <= 0x0D) || u == 0x85 || u == 0xA0 || u == 0x1680 || (0x2000 <= u
        && u <= 0x200A) || u == 0x2028 || u == 0x2029 || u == 0x202F || u == 0x205F || u == 0x3000
}

/// Whether `c` is whitespace in the sense of [`is_ws`].
pub fn is_whitespace_char(c: char) -> (r: bool)
    ensures
        r == is_ws(c),
{
    let u = c as u32;
    u == 0x20 || (0x09 <= u && u <= 0x0D) || u == 0x85 || u == 0xA0 || u == 0x1680 || (0x2000 <= u
        && u <= 0x200A) || u == 0x2028 || u == 0x2029 || u == 0x202F || u == 0x205F || u == 0x3000
}

/// `s` without its leading whitespace.
pub open spec fn trim_front(s: Seq<char>) -> Seq<char>
    decreases s.len(),
{
    if s.len() > 0 && is_ws(s[0]) {
        trim_front(s.drop_first())
    } else {
        s
    }
}

/// `s` without its trailing whitespace.
pub open spec fn trim_back(s: Seq<char>) -> Seq<char>
    decreases s.len(),
{
    if s.len() > 0 && is_ws(s.last()) {
        trim_back(s.drop_last())
    } else {
        s
    }
}

/// `s` without surrounding whitespace.
pub open spec fn trim_spec(s: Seq<char>) -> Seq<char> {
    trim_back(trim_front(s))
}

proof fn lemma_trim_front_scan(s: Seq<char>, i: int)
    requires
        0 <= i <= s.len(),
        forall|k: int| 0 <= k < i ==> is_ws(s[k]),
        i < s.len() ==> !is_ws(s[i]),
    ensures
        trim_front(s) == s.subrange(i, s.len() as int),
    decreases i,
{
    if i == 0 {
        assert(s.subrange(0, s.len() as int) =~= s);
    } else {
        assert(is_ws(s[0]));
        let d = s.drop_first();
        assert forall|k: int| 0 <= k < i - 1 implies is_ws(d[k]) by {
            assert(d[k] == s[k + 1]);
        }
        assert(i - 1 < d.len() ==> !is_ws(d[i - 1]));
        lemma_trim_front_scan(d, i - 1);
        assert(d.subrange(i - 1, d.len() as int) =~= s.subrange(i, s.len() as int));
    }
}

proof fn lemma_trim_back_scan(s: Seq<char>, j: int)
    requires
        0 <= j <= s.len(),
        forall|k: int| j <= k < s.len() ==> is_ws(s[k]),
        j > 0 ==> !is_ws(s[j - 1]),
    ensures
        trim_back(s) == s.subrange(0, j),
    decreases s.len(),
{
    if j < s.len() {
        assert(is_ws(s[s.len() - 1]));
        let d = s.drop_last();
        assert forall|k: int| j <= k < d.len() implies is_ws(d[k]) by {
            assert(d[k] == s[k]);
        }
        lemma_trim_back_scan(d, j);
        assert(d.subrange(0, j) =~= s.subrange(0, j));
    } else {
        assert(s.subrange(0, j) =~= s);
    }
}

/// Whether the two-character separator `", "` stands at position `i` of `s`.
pub open spec fn sep_at(s: Seq<char>, i: int) -> bool {
    0 <= i && i + 2 <= s.len() && s[i] == ',' && s[i + 1] == ' '
}

/// Whether position `i` carries the first separator of `s`.
pub open spec fn is_first_sep(s: Seq<char>, i: int) -> bool {
    sep_at(s, i) && forall|k: int| 0 <= k < i ==> !sep_at(s, k)
}

/// Splitting `s` on the separator `", "`, accepted only when that yields
/// exactly two segments: one separator occurrence, and none in the remainder.
pub open spec fn split_two(s: Seq<char>) -> Option<(Seq<char>, Seq<char>)> {
    if exists|i: int| is_first_sep(s, i) {
        let i = choose|i: int| is_first_sep(s, i);
        let head = s.take(i);
        let tail = s.subrange(i + 2, s.len() as int);
        if exists|j: int| sep_at(tail, j) {
            None
        } else {
            Some((head, tail))
        }
    } else {
        None
    }
}

proof fn lemma_first_sep_unique(s: Seq<char>, i: int, j: int)
    requires
        is_first_sep(s, i),
        is_first_sep(s, j),
    ensures
        i == j,
{
    if i < j {
        assert(!sep_at(s, i));
    } else if j < i {
        assert(!sep_at(s, j));
    }
}

/// A segment stripped of its mandatory surrounding double quotes; `None`
/// when either quote is missing or nothing stands between them. An identity
/// is a pair of non-empty strings — absence is "no identity", never an
/// empty string — so an empty body fails the segment.
pub open spec fn unquote(s: Seq<char>) -> Option<Seq<char>> {
    if s.len() > 2 && s[0] == '"' && s[s.len() - 1] == '"' {
        Some(s.subrange(1, s.len() - 1))
    } else {
        None
    }
}

/// The identity pair encoded in the text `WM_CLASS = "<instance>", "<class>"`
/// after trimming surrounding whitespace; `None` on any mismatch.
pub open spec fn parse_wm_class_text(text: Seq<char>) -> Option<(Seq<char>, Seq<char>)> {
    let t = trim_spec(text);
    let p = "WM_CLASS = "@;
    if t.len() >= p.len() && t.take(p.len() as int) == p {
        match split_two(t.skip(p.len() as int)) {
            Some((a, b)) => match (unquote(a), unquote(b)) {
                (Some(x), Some(y)) => Some((x, y)),
                _ => None,
            },
            None => None,
        }
    } else {
        None
    }
}

/// The identity pair encoded in raw query output: the bytes decoded as UTF-8
/// (an invalid encoding counts as empty text) and parsed as WM_CLASS text.
pub open spec fn wm_class_spec(bytes: Seq<u8>) -> Option<(Seq<char>, Seq<char>)> {
    let text = if vstd::utf8::valid_utf8(bytes) {
        vstd::utf8::decode_utf8(bytes)
    } else {
        Seq::<char>::empty()
    };
    parse_wm_class_text(text)
}

/// Whether the executable result `r` agrees with the specified parse of
/// `bytes`: present exactly together, and equal segment for segment.
pub open spec fn wm_class_result_matches(bytes: Seq<u8>, r: Option<(String, String)>) -> bool {
    match (wm_class_spec(bytes), r) {
        (Some(q), Some(p)) => p.0@ == q.0 && p.1@ == q.1,
        (None, None) => true,
        _ => false,
    }
}

/// Relies on `String::from_utf8`: it returns `Ok` with the decoded text
/// exactly when the bytes are valid UTF-8, and `Err` otherwise; the error
/// case is collapsed to `None` here.
#[verifier::external_body]
fn bytes_to_string(bytes: Vec<u8>) -> (r: Option<String>)
    ensures
        (r is Some) == vstd::utf8::valid_utf8(bytes@),
        r matches Some(s) ==> s@ == vstd::utf8::decode_utf8(bytes@),
{
    String::from_utf8(bytes).ok()
}

/// The least index of `s` that holds a non-whitespace character (the length
/// of `s` when every character is whitespace).
fn first_non_ws(s: &str) -> (a: usize)
    ensures
        a <= s@.len(),
        forall|k: int| 0 <= k < a ==> is_ws(s@[k]),
        a < s@.len() ==> !is_ws(s@[a as int]),
{
    let n = s.unicode_len();
    let mut a: usize = 0;
    while a < n
        invariant
            a <= n,
            n == s@.len(),
            forall|k: int| 0 <= k < a ==> is_ws(s@[k]),
        decreases n - a,
    {
        if !is_whitespace_char(s.get_char(a)) {
            return a;
        }
        a += 1;
    }
    a
}

/// The end of the last non-whitespace character of `s` at position `from` or
/// later (`from` itself when only whitespace follows it).
fn scan_back_ws(s: &str, from: usize) -> (b: usize)
    requires
        from <= s@.len(),
    ensures
        from <= b <= s@.len(),
        forall|k: int| b <= k < s@.len() ==> is_ws(s@[k]),
        b > from ==> !is_ws(s@[b - 1]),
{
    let n = s.unicode_len();
    let mut b: usize = n;
    while b > from
        invariant
            from <= b <= n,
            n == s@.len(),
            forall|k: int| b <= k < n ==> is_ws(s@[k]),
        decreases b,
    {
        if !is_whitespace_char(s.get_char(b - 1)) {
            return b;
        }
        b -= 1;
    }
    b
}

/// The position of the first `", "` separator of `s`, if any.
fn find_first_sep(s: &str) -> (r: Option<usize>)
    ensures
        r matches Some(i) ==> is_first_sep(s@, i as int),
        r is None ==> forall|k: int| !sep_at(s@, k),
{
    let n = s.unicode_len();
    if n < 2 {
        proof {
            assert forall|k: int| !sep_at(s@, k) by {}
        }
        return None;
    }
    let mut i: usize = 0;
    while i <= n - 2
        invariant
            2 <= n,
            i <= n,
            n == s@.len(),
            forall|k: int| 0 <= k < i ==> !sep_at(s@, k),
        decreases n - i,
    {
        if s.get_char(i) == ',' && s.get_char(i + 1) == ' ' {
            return Some(i);
        }
        i += 1;
    }
    proof {
        assert forall|k: int| !sep_at(s@, k) by {
            if 0 <= k < i {
            } else if k >= i {
                assert(k + 2 > n);
            }
        }
    }
    None
}

/// The segment without its surrounding double quotes, or `None` when either
/// quote is missing or the body between them is empty.
fn strip_quotes(s: &str) -> (r: Option<String>)
    ensures
        (r is Some) == (unquote(s@) is Some),
        r matches Some(t) ==> unquote(s@) matches Some(u) && t@ == u,
{
    let n = s.unicode_len();
    if n < 3 {
        return None;
    }
    if s.get_char(0) != '"' {
        return None;
    }
    if s.get_char(n - 1) != '"' {
        return None;
    }
    Some(s.substring_char(1, n - 1).to_owned())
}

/// Parses the raw output of the external property query. The bytes are
/// decoded as UTF-8 (invalid encodings count as empty text and so fail),
/// surrounding whitespace is trimmed, the literal prefix `WM_CLASS = ` is
/// required, the remainder must split on `", "` into exactly two segments,
/// and each segment must be a non-empty string wrapped in double quotes,
/// which are stripped. Any mismatch yields `None`; the parser never panics
/// and never errors, and it never returns an empty instance or class.
pub fn parse_xprop_wm_class(output: Vec<u8>) -> (r: Option<(String, String)>)
    ensures
        wm_class_result_matches(output@, r),
{
    proof {
        reveal_strlit("WM_CLASS = ");
    }
    let decoded: String = match bytes_to_string(output) {
        Some(s) => s,
        None => {
            proof {
                let text = Seq::<char>::empty();
                assert(trim_front(text) == text);
                assert(trim_back(text) == text);
                assert(trim_spec(text).len() == 0);
                assert("WM_CLASS = "@.len() == 11);
            }
            return None;
        },
    };
    let st = decoded.as_str();
    let ghost text = st@;
    let a = first_non_ws(st);
    let b = scan_back_ws(st, a);
    let tr = st.substring_char(a, b);
    proof {
        lemma_trim_front_scan(text, a as int);
        let tf = text.subrange(a as int, text.len() as int);
        assert forall|k: int| b - a <= k < tf.len() implies is_ws(tf[k]) by {
            assert(tf[k] == text[a + k]);
        }
        lemma_trim_back_scan(tf, b - a);
        assert(tf.subrange(0, b - a) =~= text.subrange(a as int, b as int));
        assert(trim_spec(text) == tr@);
    }
    let ghost t = trim_spec(text);
    let m = tr.unicode_len();
    if m < 11 {
        return None;
    }
    let head = tr.substring_char(0, 11);
    if !str_eq(head, "WM_CLASS = ") {
        proof {
            assert(head@ =~= t.take(11));
        }
        return None;
    }
    proof {
        assert(t.take(11) =~= head@);
        assert(t.take(11) == "WM_CLASS = "@);
    }
    let rest = tr.substring_char(11, m);
    let ghost rest_s = t.skip(11);
    proof {
        assert(rest@ =~= rest_s);
    }
    let rl = rest.unicode_len();
    let first = match find_first_sep(rest) {
        Some(i) => i,
        None => {
            proof {
                assert forall|i: int| !is_first_sep(rest_s, i) by {
                    assert(!sep_at(rest_s, i));
                }
            }
            return None;
        },
    };
    proof {
        assert(is_first_sep(rest_s, first as int));
        assert(exists|i: int| is_first_sep(rest_s, i));
        let c = choose|i: int| is_first_sep(rest_s, i);
        lemma_first_sep_unique(rest_s, c, first as int);
    }
    let seg_a = rest.substring_char(0, first);
    let seg_b = rest.substring_char(first + 2, rl);
    proof {
        assert(seg_a@ =~= rest_s.take(first as int));
        assert(seg_b@ =~= rest_s.subrange(first as int + 2, rest_s.len() as int));
    }
    if let Some(j2) = find_first_sep(seg_b) {
        proof {
            assert(sep_at(seg_b@, j2 as int));
        }
        return None;
    }
    proof {
        assert(split_two(rest_s) matches Some(p) && p.0 == seg_a@ && p.1 == seg_b@);
    }
    let inst = match strip_quotes(seg_a) {
        Some(x) => x,
        None => {
            return None;
        },
    };
    let class = match strip_quotes(seg_b) {
        Some(x) => x,
        None => {
            return None;
        },
    };
    Some((inst, class))
}

} // verus!
