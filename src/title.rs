//! Extracting a document's title from its first level-one heading line.
use vstd::prelude::*;

verus! {

/// Unicode `White_Space`, as `char::is_whitespace` and `str::trim` use it.
pub open spec fn is_ws(c: char) -> bool {
    let u = c as u32;
    u == 0x20 || (0x09 <= u && u <= 0x0D) || u == 0x85 || u == 0xA0 || u == 0x1680 || (0x2000
        <= u && u <= 0x200A) || u == 0x2028 || u == 0x2029 || u == 0x202F || u == 0x205F || u
        == 0x3000
}

/// The index of the newline that ends the line holding position `i`, or the
/// text's length on its last line.
pub open spec fn line_end(s: Seq<char>, i: int) -> int
    decreases s.len() - i,
{
    if i < 0 || i >= s.len() || s[i] == '\n' {
        i
    } else {
        line_end(s, i + 1)
    }
}

/// The first `{` in `[i, e)`, or `e`.
pub open spec fn brace_pos(s: Seq<char>, i: int, e: int) -> int
    decreases e - i,
{
    if i >= e || s[i] == '{' {
        i
    } else {
        brace_pos(s, i + 1, e)
    }
}

/// Skips whitespace forward from `i` within `[i, e)`.
pub open spec fn skip_ws_fwd(s: Seq<char>, i: int, e: int) -> int
    decreases e - i,
{
    if i < e && is_ws(s[i]) {
        skip_ws_fwd(s, i + 1, e)
    } else {
        i
    }
}

/// Skips whitespace backward from `e` within `[i, e)`.
pub open spec fn skip_ws_back(s: Seq<char>, i: int, e: int) -> int
    decreases e - i,
{
    if i < e && is_ws(s[e - 1]) {
        skip_ws_back(s, i, e - 1)
    } else {
        e
    }
}

/// The line `[k, e)` starts with exactly one `#`.
pub open spec fn is_title_line(s: Seq<char>, k: int, e: int) -> bool {
    k < e && s[k] == '#' && !(k + 1 < e && s[k + 1] == '#')
}

/// The title held by the title line `[k, e)`: what follows the `#`, cut at the
/// first `{` and trimmed of whitespace.
pub open spec fn title_of_line(s: Seq<char>, k: int, e: int) -> Seq<char> {
    let b = brace_pos(s, k + 1, e);
    let lo = skip_ws_fwd(s, k + 1, b);
    let hi = skip_ws_back(s, lo, b);
    s.subrange(lo, hi)
}

/// The title found in the lines that start at or after `k` (a line start).
pub open spec fn title_from(s: Seq<char>, k: int) -> Seq<char>
    decreases s.len() - k,
{
    if k < 0 || k >= s.len() {
        Seq::empty()
    } else {
        let e = line_end(s, k);
        if is_title_line(s, k, e) {
            title_of_line(s, k, e)
        } else if e < s.len() {
            proof {
                lemma_line_end(s, k);
            }
            title_from(s, e + 1)
        } else {
            Seq::empty()
        }
    }
}

/// A document's title: taken from its first line that starts with exactly one
/// `#`, or empty where there is none.
pub open spec fn title_spec(s: Seq<char>) -> Seq<char> {
    title_from(s, 0)
}

pub proof fn lemma_line_end(s: Seq<char>, i: int)
    requires
        0 <= i <= s.len(),
    ensures
        i <= line_end(s, i) <= s.len(),
        line_end(s, i) < s.len() ==> s[line_end(s, i)] == '\n',
    decreases s.len() - i,
{
    if i < s.len() && s[i] != '\n' {
        lemma_line_end(s, i + 1);
    }
}

proof fn lemma_brace_pos(s: Seq<char>, i: int, e: int)
    requires
        i <= e,
    ensures
        i <= brace_pos(s, i, e) <= e,
    decreases e - i,
{
    if i < e && s[i] != '{' {
        lemma_brace_pos(s, i + 1, e);
    }
}

proof fn lemma_skip_fwd(s: Seq<char>, i: int, e: int)
    requires
        i <= e,
    ensures
        i <= skip_ws_fwd(s, i, e) <= e,
    decreases e - i,
{
    if i < e && is_ws(s[i]) {
        lemma_skip_fwd(s, i + 1, e);
    }
}

proof fn lemma_skip_back(s: Seq<char>, i: int, e: int)
    requires
        i <= e,
    ensures
        i <= skip_ws_back(s, i, e) <= e,
    decreases e - i,
{
    if i < e && is_ws(s[e - 1]) {
        lemma_skip_back(s, i, e - 1);
    }
}

/// Position `k` starts a line of `s`.
pub open spec fn is_line_start(s: Seq<char>, k: int) -> bool {
    0 <= k < s.len() && (k == 0 || s[k - 1] == '\n')
}

/// The line starting at `k` is a title line.
pub open spec fn starts_title_line(s: Seq<char>, k: int) -> bool {
    is_line_start(s, k) && is_title_line(s, k, line_end(s, k))
}

proof fn lemma_line_end_before_newline(s: Seq<char>, j: int, p: int)
    requires
        0 <= j <= p < s.len(),
        s[p] == '\n',
    ensures
        line_end(s, j) <= p,
    decreases p - j,
{
    if s[j] != '\n' {
        lemma_line_end_before_newline(s, j + 1, p);
    }
}

proof fn lemma_title_from_first(s: Seq<char>, j: int, k: int)
    requires
        j == 0 || (0 < j <= s.len() && s[j - 1] == '\n'),
        j <= k,
        starts_title_line(s, k),
        forall|q: int| j <= q < k ==> !#[trigger] starts_title_line(s, q),
    ensures
        title_from(s, j) == title_of_line(s, k, line_end(s, k)),
    decreases k - j,
{
    if j < k {
        lemma_line_end(s, j);
        lemma_line_end_before_newline(s, j, k - 1);
        assert(!starts_title_line(s, j));
        lemma_title_from_first(s, line_end(s, j) + 1, k);
    }
}

proof fn lemma_title_from_none(s: Seq<char>, j: int)
    requires
        j == 0 || (0 < j <= s.len() && s[j - 1] == '\n'),
        forall|q: int| j <= q ==> !#[trigger] starts_title_line(s, q),
    ensures
        title_from(s, j) == Seq::<char>::empty(),
    decreases s.len() - j,
{
    if j < s.len() {
        lemma_line_end(s, j);
        assert(!starts_title_line(s, j));
        if line_end(s, j) < s.len() {
            lemma_title_from_none(s, line_end(s, j) + 1);
        }
    }
}

/// The title is taken from the first line that starts with exactly one `#`:
/// what follows the `#`, cut at the first `{` and trimmed. Where no line
/// starts so, the title is empty.
pub proof fn lemma_title_of_first_heading_line(s: Seq<char>)
    ensures
        forall|k: int|
            #[trigger] starts_title_line(s, k) && (forall|q: int|
                0 <= q < k ==> !#[trigger] starts_title_line(s, q)) ==> title_spec(s)
                == title_of_line(s, k, line_end(s, k)),
        (forall|q: int| !#[trigger] starts_title_line(s, q)) ==> title_spec(s) == Seq::<
            char,
        >::empty(),
{
    assert forall|k: int|
        #[trigger] starts_title_line(s, k) && (forall|q: int|
            0 <= q < k ==> !#[trigger] starts_title_line(s, q)) implies title_spec(s)
        == title_of_line(s, k, line_end(s, k)) by {
        lemma_title_from_first(s, 0, k);
    }
    if forall|q: int| !#[trigger] starts_title_line(s, q) {
        lemma_title_from_none(s, 0);
    }
}

/// Whether `c` is whitespace in the sense of `is_ws`.
pub fn is_whitespace(c: char) -> (r: bool)
    ensures
        r == is_ws(c),
{
    let u = c as u32;
    u == 0x20 || (0x09 <= u && u <= 0x0D) || u == 0x85 || u == 0xA0 || u == 0x1680 || (0x2000
        <= u && u <= 0x200A) || u == 0x2028 || u == 0x2029 || u == 0x202F || u == 0x205F || u
        == 0x3000
}

/// Extracts the title of a document from its raw text.
pub fn extract_title(text: &str) -> (r: String)
    ensures
        r@ == title_spec(text@),
{
    let n = text.unicode_len();
    let mut k: usize = 0;
    while k < n
        invariant
            n == text@.len(),
            k <= n,
            title_spec(text@) == title_from(text@, k as int),
        decreases n - k,
    {
        let ghost s = text@;
        let mut e: usize = k;
        while e < n && text.get_char(e) != '\n'
            invariant
                s == text@,
                n == s.len(),
                k <= e <= n,
                line_end(s, k as int) == line_end(s, e as int),
            decreases n - e,
        {
            e = e + 1;
        }
        assert(line_end(s, k as int) == e as int);
        proof {
            lemma_line_end(s, k as int);
        }
        let first = text.get_char(k);
        let one_marker = first == '#' && !(k + 1 < e && text.get_char(k + 1) == '#');
        if one_marker {
            let mut b: usize = k + 1;
            while b < e && text.get_char(b) != '{'
                invariant
                    s == text@,
                    n == s.len(),
                    k < b <= e <= n,
                    brace_pos(s, k + 1, e as int) == brace_pos(s, b as int, e as int),
                decreases e - b,
            {
                b = b + 1;
            }
            let mut lo: usize = k + 1;
            while lo < b && is_whitespace(text.get_char(lo))
                invariant
                    s == text@,
                    n == s.len(),
                    k < lo <= b <= e <= n,
                    brace_pos(s, k + 1, e as int) == b,
                    skip_ws_fwd(s, k + 1, b as int) == skip_ws_fwd(s, lo as int, b as int),
                decreases b - lo,
            {
                lo = lo + 1;
            }
            let mut hi: usize = b;
            while lo < hi && is_whitespace(text.get_char(hi - 1))
                invariant
                    s == text@,
                    n == s.len(),
                    k < lo <= hi <= b <= e <= n,
                    brace_pos(s, k + 1, e as int) == b,
                    skip_ws_fwd(s, k + 1, b as int) == lo,
                    skip_ws_back(s, lo as int, b as int) == skip_ws_back(s, lo as int, hi as int),
                decreases hi - lo,
            {
                hi = hi - 1;
            }
            let t = text.substring_char(lo, hi);
            return t.to_owned();
        }
        if e == n {
            return String::new();
        }
        k = e + 1;
    }
    String::new()
}

} // verus!
