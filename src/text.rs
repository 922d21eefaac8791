use vstd::prelude::*;
use vstd::string::*;

verus! {

/// Code-point order on strings: a proper prefix comes first.
pub open spec fn lex_le(a: Seq<char>, b: Seq<char>) -> bool
    decreases a.len(),
{
    if a.len() == 0 {
        true
    } else if b.len() == 0 {
        false
    } else if (a[0] as u32) != (b[0] as u32) {
        (a[0] as u32) < (b[0] as u32)
    } else {
        lex_le(a.drop_first(), b.drop_first())
    }
}

/// The characters of a string, one per element.
pub fn chars_of(s: &str) -> (r: Vec<char>)
    ensures
        r@ == s@,
{
    let n = s.unicode_len();
    let mut r: Vec<char> = Vec::new();
    let mut i: usize = 0;
    while i < n
        invariant
            n == s@.len(),
            i <= n,
            r@ == s@.take(i as int),
        decreases n - i,
    {
        r.push(s.get_char(i));
        assert(r@ =~= s@.take(i + 1));
        i = i + 1;
    }
    assert(s@.take(n as int) =~= s@);
    r
}

/// Compares two strings in code-point order.
pub fn text_le(a: &Vec<char>, b: &Vec<char>) -> (r: bool)
    ensures
        r == lex_le(a@, b@),
{
    let mut i: usize = 0;
    assert(a@.skip(0) =~= a@);
    assert(b@.skip(0) =~= b@);
    while i < a.len() && i < b.len() && (a[i] as u32) == (b[i] as u32)
        invariant
            i <= a.len(),
            i <= b.len(),
            lex_le(a@, b@) == lex_le(a@.skip(i as int), b@.skip(i as int)),
        decreases a.len() - i,
    {
        assert(a@.skip(i as int).drop_first() =~= a@.skip(i + 1));
        assert(b@.skip(i as int).drop_first() =~= b@.skip(i + 1));
        i = i + 1;
    }
    if i == a.len() {
        true
    } else if i == b.len() {
        false
    } else {
        (a[i] as u32) < (b[i] as u32)
    }
}

/// Compares two strings in code-point order.
pub fn str_le(a: &str, b: &str) -> (r: bool)
    ensures
        r == lex_le(a@, b@),
{
    let ca = chars_of(a);
    let cb = chars_of(b);
    text_le(&ca, &cb)
}

/// A character with ASCII upper case folded to lower case.
pub open spec fn fold_code(c: char) -> u32 {
    if 65 <= (c as u32) && (c as u32) <= 90 {
        ((c as u32) + 32) as u32
    } else {
        c as u32
    }
}

pub fn fold(c: char) -> (r: u32)
    ensures
        r == fold_code(c),
{
    let u = c as u32;
    if 65 <= u && u <= 90 {
        u + 32
    } else {
        u
    }
}

/// A letter or a digit: ASCII ones, and every character beyond ASCII.
pub open spec fn is_word_char(c: char) -> bool {
    let u = c as u32;
    (48 <= u && u <= 57) || (65 <= u && u <= 90) || (97 <= u && u <= 122) || u >= 128
}

pub fn word_char(c: char) -> (r: bool)
    ensures
        r == is_word_char(c),
{
    let u = c as u32;
    (48 <= u && u <= 57) || (65 <= u && u <= 90) || (97 <= u && u <= 122) || u >= 128
}

/// `term` occurs in `text` at position `i`, ignoring ASCII case, and is not
/// part of a longer word there: no letter or digit touches it on either side.
pub open spec fn matches_at(text: Seq<char>, term: Seq<char>, i: int) -> bool {
    &&& 0 <= i
    &&& i + term.len() <= text.len()
    &&& forall|j: int| 0 <= j < term.len() ==> fold_code(#[trigger] text[i + j]) == fold_code(term[j])
    &&& (i == 0 || !is_word_char(text[i - 1]))
    &&& (i + term.len() == text.len() || !is_word_char(text[i + term.len()]))
}

pub fn match_at(text: &Vec<char>, term: &Vec<char>, i: usize) -> (r: bool)
    ensures
        r == matches_at(text@, term@, i as int),
{
    if term.len() > text.len() || i > text.len() - term.len() {
        return false;
    }
    if i > 0 && word_char(text[i - 1]) {
        return false;
    }
    let end = i + term.len();
    if end < text.len() && word_char(text[end]) {
        return false;
    }
    let mut j: usize = 0;
    while j < term.len()
        invariant
            i + term.len() <= text.len(),
            j <= term.len(),
            forall|k: int| 0 <= k < j ==> fold_code(#[trigger] text@[i + k]) == fold_code(term@[k]),
        decreases term.len() - j,
    {
        if fold(text[i + j]) != fold(term[j]) {
            return false;
        }
        j = j + 1;
    }
    true
}

/// The number of positions of `text` before `n` at which `term` occurs.
pub open spec fn count_upto(text: Seq<char>, term: Seq<char>, n: int) -> nat
    decreases n,
{
    if n <= 0 {
        0
    } else {
        count_upto(text, term, n - 1) + if matches_at(text, term, n - 1) {
            1nat
        } else {
            0nat
        }
    }
}

/// The number of occurrences of `term` in `text`, overlapping ones included.
pub open spec fn occurrences(text: Seq<char>, term: Seq<char>) -> nat {
    count_upto(text, term, text.len() as int)
}

pub fn count_occurrences(text: &Vec<char>, term: &Vec<char>) -> (r: usize)
    ensures
        r == occurrences(text@, term@),
{
    let mut c: usize = 0;
    let mut i: usize = 0;
    while i < text.len()
        invariant
            i <= text.len(),
            c == count_upto(text@, term@, i as int),
            c <= i,
        decreases text.len() - i,
    {
        if match_at(text, term, i) {
            c = c + 1;
        }
        i = i + 1;
    }
    c
}

/// The length of the first non-empty term that occurs at position `i`
/// (looking from the `k`-th term on), or 0 where none does.
pub open spec fn match_len(text: Seq<char>, terms: Seq<Seq<char>>, i: int, k: int) -> int
    decreases terms.len() - k,
{
    if k < 0 || k >= terms.len() {
        0
    } else if terms[k].len() > 0 && matches_at(text, terms[k], i) {
        terms[k].len() as int
    } else {
        match_len(text, terms, i, k + 1)
    }
}

pub open spec fn deep(v: Seq<Vec<char>>) -> Seq<Seq<char>> {
    v.map_values(|x: Vec<char>| x@)
}

pub fn first_match_len(text: &Vec<char>, terms: &Vec<Vec<char>>, i: usize) -> (r: usize)
    ensures
        r == match_len(text@, deep(terms@), i as int, 0),
        r > 0 ==> i + r <= text.len(),
{
    let mut k: usize = 0;
    while k < terms.len()
        invariant
            k <= terms.len(),
            match_len(text@, deep(terms@), i as int, 0) == match_len(
                text@,
                deep(terms@),
                i as int,
                k as int,
            ),
        decreases terms.len() - k,
    {
        if terms[k].len() > 0 && match_at(text, &terms[k], i) {
            return terms[k].len();
        }
        k = k + 1;
    }
    0
}

pub open spec fn mark_open() -> Seq<char> {
    "<mark>"@
}

pub open spec fn mark_close() -> Seq<char> {
    "</mark>"@
}

/// `text` from position `i` on, with each occurrence of a term wrapped in
/// highlight markers; where several terms occur at one position, the first
/// of them in `terms` is marked, and the scan resumes after it.
pub open spec fn highlight_from(text: Seq<char>, terms: Seq<Seq<char>>, i: int) -> Seq<char>
    decreases text.len() - i,
{
    if i < 0 || i >= text.len() {
        Seq::empty()
    } else {
        let l = match_len(text, terms, i, 0);
        if l > 0 && i + l <= text.len() {
            mark_open() + text.subrange(i, i + l) + mark_close() + highlight_from(
                text,
                terms,
                i + l,
            )
        } else {
            seq![text[i]] + highlight_from(text, terms, i + 1)
        }
    }
}

pub open spec fn highlight(text: Seq<char>, terms: Seq<Seq<char>>) -> Seq<char> {
    highlight_from(text, terms, 0)
}

proof fn lemma_match_len_bound(text: Seq<char>, terms: Seq<Seq<char>>, i: int, k: int)
    ensures
        match_len(text, terms, i, k) >= 0,
        match_len(text, terms, i, k) > 0 ==> i + match_len(text, terms, i, k) <= text.len(),
    decreases terms.len() - k,
{
    if k >= 0 && k < terms.len() {
        lemma_match_len_bound(text, terms, i, k + 1);
    }
}

/// Wraps each occurrence of a term in `s` in highlight markers.
pub fn highlight_text(s: &str, terms: &Vec<Vec<char>>) -> (r: String)
    ensures
        r@ == highlight(s@, deep(terms@)),
{
    let text = chars_of(s);
    let n = text.len();
    let mut out = String::new();
    let mut i: usize = 0;
    let open = "<mark>";
    let close = "</mark>";
    while i < n
        invariant
            n == text.len(),
            text@ == s@,
            i <= n,
            open@ == mark_open(),
            close@ == mark_close(),
            out@ + highlight_from(text@, deep(terms@), i as int) == highlight(
                text@,
                deep(terms@),
            ),
        decreases n - i,
    {
        let l = first_match_len(&text, terms, i);
        proof {
            lemma_match_len_bound(text@, deep(terms@), i as int, 0);
        }
        if l > 0 {
            out.append(open);
            out.append(s.substring_char(i, i + l));
            out.append(close);
            assert(out@ + highlight_from(text@, deep(terms@), (i + l) as int) =~= highlight(
                text@,
                deep(terms@),
            ));
            i = i + l;
        } else {
            out.append(s.substring_char(i, i + 1));
            assert(s@.subrange(i as int, i + 1) =~= seq![text@[i as int]]);
            assert(out@ + highlight_from(text@, deep(terms@), i + 1) =~= highlight(
                text@,
                deep(terms@),
            ));
            i = i + 1;
        }
    }
    assert(out@ + highlight_from(text@, deep(terms@), i as int) =~= out@);
    out
}

} // verus!

verus! {

/// Whether two strings hold the same characters.
pub fn str_eq(a: &str, b: &str) -> (r: bool)
    ensures
        r == (a@ == b@),
{
    let x = String::from_str(a);
    let y = String::from_str(b);
    x == y
}

} // verus!

verus! {

/// At most this many words of a document are quoted in a headline.
pub const SNIPPET_WORDS: usize = 64;

pub open spec fn is_blank(c: char) -> bool {
    c == ' ' || c == '\t' || c == '\n' || c == '\r'
}

/// A word starts at `i`: a non-blank character after a blank or at the start.
pub open spec fn word_start(s: Seq<char>, i: int) -> bool {
    0 <= i < s.len() && !is_blank(s[i]) && (i == 0 || is_blank(s[i - 1]))
}

/// The first position from `i` on at which a term occurs, or the length of
/// `s` where none does.
pub open spec fn first_hit(s: Seq<char>, terms: Seq<Seq<char>>, i: int) -> int
    decreases s.len() - i,
{
    if i < 0 || i >= s.len() {
        s.len() as int
    } else if match_len(s, terms, i, 0) > 0 {
        i
    } else {
        first_hit(s, terms, i + 1)
    }
}

/// The start of the word that holds position `p`, or `p` where it follows a
/// blank.
pub open spec fn word_begin(s: Seq<char>, p: int) -> int
    decreases p,
{
    if p <= 0 {
        0
    } else if is_blank(s[p - 1]) {
        p
    } else {
        word_begin(s, p - 1)
    }
}

/// Where the quote that starts at `i` ends: before the word that would be
/// the `k + 1`-th from `i` on, or at the end of `s`.
pub open spec fn end_after(s: Seq<char>, i: int, k: nat) -> int
    decreases s.len() - i,
{
    if i < 0 || i >= s.len() {
        s.len() as int
    } else if word_start(s, i) {
        if k == 0 {
            i
        } else {
            end_after(s, i + 1, (k - 1) as nat)
        }
    } else {
        end_after(s, i + 1, k)
    }
}

/// Where the quoted part of `s` starts: at the start where the first
/// occurrence of a term lies within the first words, else at the start of
/// the word that holds it.
pub open spec fn snippet_start(s: Seq<char>, terms: Seq<Seq<char>>) -> int {
    let p = first_hit(s, terms, 0);
    if p >= s.len() || p < end_after(s, 0, SNIPPET_WORDS as nat) {
        0
    } else {
        word_begin(s, p)
    }
}

pub open spec fn ellipsis() -> Seq<char> {
    "..."@
}

/// The headline of a text: at most `SNIPPET_WORDS` words of it, with the
/// terms highlighted, and `...` where text was left out before or after.
pub open spec fn snippet(s: Seq<char>, terms: Seq<Seq<char>>) -> Seq<char> {
    let a = snippet_start(s, terms);
    let b = end_after(s, a, SNIPPET_WORDS as nat);
    (if a > 0 {
        ellipsis()
    } else {
        Seq::empty()
    }) + highlight(s.subrange(a, b), terms) + (if b < s.len() {
        ellipsis()
    } else {
        Seq::empty()
    })
}

pub proof fn lemma_end_after_bounds(s: Seq<char>, i: int, k: nat)
    requires
        0 <= i <= s.len(),
    ensures
        i <= end_after(s, i, k) <= s.len(),
    decreases s.len() - i,
{
    if i < s.len() {
        if word_start(s, i) {
            if k > 0 {
                lemma_end_after_bounds(s, i + 1, (k - 1) as nat);
            }
        } else {
            lemma_end_after_bounds(s, i + 1, k);
        }
    }
}

pub proof fn lemma_word_begin_bounds(s: Seq<char>, p: int)
    requires
        p <= s.len(),
    ensures
        0 <= word_begin(s, p) <= if p < 0 { 0 } else { p },
    decreases p,
{
    if p > 0 && !is_blank(s[p - 1]) {
        lemma_word_begin_bounds(s, p - 1);
    }
}

fn blank(c: char) -> (r: bool)
    ensures
        r == is_blank(c),
{
    c == ' ' || c == '\t' || c == '\n' || c == '\r'
}

fn find_first_hit(text: &Vec<char>, terms: &Vec<Vec<char>>) -> (r: usize)
    ensures
        r == first_hit(text@, deep(terms@), 0),
        r <= text.len(),
{
    let mut i: usize = 0;
    while i < text.len()
        invariant
            i <= text.len(),
            first_hit(text@, deep(terms@), 0) == first_hit(text@, deep(terms@), i as int),
        decreases text.len() - i,
    {
        if first_match_len(text, terms, i) > 0 {
            return i;
        }
        i = i + 1;
    }
    text.len()
}

fn find_word_begin(text: &Vec<char>, p: usize) -> (r: usize)
    requires
        p <= text.len(),
    ensures
        r == word_begin(text@, p as int),
{
    let mut i: usize = p;
    while i > 0 && !blank(text[i - 1])
        invariant
            i <= p,
            p <= text.len(),
            word_begin(text@, p as int) == word_begin(text@, i as int),
        decreases i,
    {
        i = i - 1;
    }
    i
}

fn find_end_after(text: &Vec<char>, start: usize, k: usize) -> (r: usize)
    requires
        start <= text.len(),
    ensures
        r == end_after(text@, start as int, k as nat),
{
    let mut i: usize = start;
    let mut left: usize = k;
    while i < text.len()
        invariant
            start <= i <= text.len(),
            end_after(text@, start as int, k as nat) == end_after(text@, i as int, left as nat),
        decreases text.len() - i,
    {
        let starts = !blank(text[i]) && (i == 0 || blank(text[i - 1]));
        if starts {
            if left == 0 {
                return i;
            }
            left = left - 1;
        }
        i = i + 1;
    }
    text.len()
}

/// The headline of `s`, as `snippet` states it.
pub fn snippet_text(s: &str, terms: &Vec<Vec<char>>) -> (r: String)
    ensures
        r@ == snippet(s@, deep(terms@)),
{
    let text = chars_of(s);
    let p = find_first_hit(&text, terms);
    let head_end = find_end_after(&text, 0, SNIPPET_WORDS);
    let a = if p >= text.len() || p < head_end {
        0
    } else {
        find_word_begin(&text, p)
    };
    proof {
        lemma_word_begin_bounds(text@, p as int);
    }
    let b = find_end_after(&text, a, SNIPPET_WORDS);
    proof {
        lemma_end_after_bounds(text@, a as int, SNIPPET_WORDS as nat);
        reveal_strlit("...");
    }
    let mut out = String::new();
    if a > 0 {
        out.append("...");
    }
    let middle = highlight_text(s.substring_char(a, b), terms);
    out.append(middle.as_str());
    if b < text.len() {
        out.append("...");
    }
    assert(out@ =~= snippet(s@, deep(terms@)));
    out
}

/// Any two strings are ordered one way or the other.
pub proof fn lemma_lex_total(a: Seq<char>, b: Seq<char>)
    ensures
        lex_le(a, b) || lex_le(b, a),
    decreases a.len(),
{
    if a.len() > 0 && b.len() > 0 && (a[0] as u32) == (b[0] as u32) {
        lemma_lex_total(a.drop_first(), b.drop_first());
    }
}

/// Code-point order is transitive.
pub proof fn lemma_lex_trans(a: Seq<char>, b: Seq<char>, c: Seq<char>)
    requires
        lex_le(a, b),
        lex_le(b, c),
    ensures
        lex_le(a, c),
    decreases a.len(),
{
    if a.len() > 0 && b.len() > 0 && c.len() > 0 && (a[0] as u32) == (b[0] as u32) && (b[0] as u32)
        == (c[0] as u32) {
        lemma_lex_trans(a.drop_first(), b.drop_first(), c.drop_first());
    }
}

} // verus!
