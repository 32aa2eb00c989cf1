//! Character-level text handling shared by the parsers: the mathematical
//! meaning of trimming, line splitting, searching and number reading over
//! `Seq<char>`, and executable functions proved to compute them.
use vstd::prelude::*;

verus! {

// ---------------------------------------------------------------------------
// Characters
// ---------------------------------------------------------------------------

/// Unicode `White_Space`, the property that `char::is_whitespace` and
/// `str::trim` test.
pub open spec fn is_ws(c: char) -> bool {
    ||| c == ' '
    ||| ('\t' <= c && c <= '\r')
    ||| c == '\u{85}'
    ||| c == '\u{a0}'
    ||| c == '\u{1680}'
    ||| ('\u{2000}' <= c && c <= '\u{200a}')
    ||| c == '\u{2028}'
    ||| c == '\u{2029}'
    ||| c == '\u{202f}'
    ||| c == '\u{205f}'
    ||| c == '\u{3000}'
}

pub fn whitespace(c: char) -> (b: bool)
    ensures
        b == is_ws(c),
{
    c == ' ' || ('\t' <= c && c <= '\r') || c == '\u{85}' || c == '\u{a0}' || c == '\u{1680}'
        || ('\u{2000}' <= c && c <= '\u{200a}') || c == '\u{2028}' || c == '\u{2029}'
        || c == '\u{202f}' || c == '\u{205f}' || c == '\u{3000}'
}

pub open spec fn is_digit(c: char) -> bool {
    '0' <= c && c <= '9'
}

pub fn digit(c: char) -> (b: bool)
    ensures
        b == is_digit(c),
{
    '0' <= c && c <= '9'
}

pub open spec fn is_hex_digit(c: char) -> bool {
    is_digit(c) || ('a' <= c && c <= 'f') || ('A' <= c && c <= 'F')
}

pub fn hex_digit(c: char) -> (b: bool)
    ensures
        b == is_hex_digit(c),
{
    ('0' <= c && c <= '9') || ('a' <= c && c <= 'f') || ('A' <= c && c <= 'F')
}

/// The numeric value of a decimal digit.
pub open spec fn digit_value(c: char) -> nat {
    (c as u32 - '0' as u32) as nat
}

/// ASCII lower-casing of one character: `A`..`Z` become `a`..`z`, every other
/// character stays.
pub open spec fn lower_char(c: char) -> char {
    if 'A' <= c && c <= 'Z' {
        ((c as u32) + 32) as char
    } else {
        c
    }
}

pub fn ascii_lower_char(c: char) -> (r: char)
    ensures
        r == lower_char(c),
{
    if 'A' <= c && c <= 'Z' {
        let code: u8 = (c as u8) + 32;
        code as char
    } else {
        c
    }
}

/// ASCII lower-casing of a text, as `to_ascii_lowercase` does.
pub open spec fn lower(s: Seq<char>) -> Seq<char> {
    s.map_values(|c: char| lower_char(c))
}

pub fn ascii_lowercase(s: &Vec<char>) -> (r: Vec<char>)
    ensures
        r@ == lower(s@),
{
    let mut r: Vec<char> = Vec::new();
    for i in 0..s.len()
        invariant
            r@ == lower(s@.subrange(0, i as int)),
    {
        r.push(ascii_lower_char(s[i]));
        assert(s@.subrange(0, i + 1) =~= s@.subrange(0, i as int).push(s@[i as int]));
        assert(lower(s@.subrange(0, i + 1)) =~= lower(s@.subrange(0, i as int)).push(lower_char(s@[i as int])));
    }
    assert(s@.subrange(0, s.len() as int) =~= s@);
    r
}

// ---------------------------------------------------------------------------
// Conversions between `str`, `String` and character vectors
// ---------------------------------------------------------------------------

/// The characters of `s`, in order.
pub fn chars_of(s: &str) -> (res: Vec<char>)
    ensures
        res@ == s@,
{
    let mut res: Vec<char> = Vec::new();
    for c in it: s.chars()
        invariant
            res@ == it.seq().take(it.index() as int),
    {
        res.push(c);
    }
    res
}

/// A `String` built by collecting characters (`String`'s `FromIterator<char>`).
/// Trusted: the contract claims that the string holds exactly the given
/// characters, in order.
#[verifier::external_body]
pub(crate) fn string_from_chars(chars: Vec<char>) -> (res: String)
    ensures
        res@ == chars@,
{
    chars.into_iter().collect()
}

/// A `String` holding the characters of a literal.
pub fn owned(s: &str) -> (res: String)
    ensures
        res@ == s@,
{
    String::from_str(s)
}

/// Copies `s[from..to]`.
pub fn copy_range(s: &Vec<char>, from: usize, to: usize) -> (r: Vec<char>)
    requires
        from <= to <= s.len(),
    ensures
        r@ == s@.subrange(from as int, to as int),
{
    let mut r: Vec<char> = Vec::new();
    let mut i = from;
    while i < to
        invariant
            from <= i <= to <= s.len(),
            r@ == s@.subrange(from as int, i as int),
        decreases to - i,
    {
        r.push(s[i]);
        i += 1;
        assert(r@ =~= s@.subrange(from as int, i as int));
    }
    r
}

/// Appends `t` to `s`.
pub fn append_chars(s: &mut Vec<char>, t: &Vec<char>)
    ensures
        final(s)@ == old(s)@ + t@,
{
    let ghost start = s@;
    for i in 0..t.len()
        invariant
            s@ == start + t@.subrange(0, i as int),
    {
        s.push(t[i]);
        assert(s@ =~= start + t@.subrange(0, i + 1));
    }
    assert(t@.subrange(0, t.len() as int) =~= t@);
}

// ---------------------------------------------------------------------------
// Comparing and searching
// ---------------------------------------------------------------------------

pub open spec fn starts_with(s: Seq<char>, p: Seq<char>) -> bool {
    p.len() <= s.len() && s.subrange(0, p.len() as int) == p
}

pub open spec fn ends_with(s: Seq<char>, p: Seq<char>) -> bool {
    p.len() <= s.len() && s.subrange(s.len() - p.len(), s.len() as int) == p
}

/// `p` occurs in `s` starting at index `i`.
pub open spec fn occurs_at(s: Seq<char>, p: Seq<char>, i: int) -> bool {
    0 <= i && i + p.len() <= s.len() && s.subrange(i, i + p.len()) == p
}

pub open spec fn contains(s: Seq<char>, p: Seq<char>) -> bool {
    exists|i: int| occurs_at(s, p, i)
}

/// Whether `p` occurs in `s` at index `i`.
pub fn matches_at(s: &Vec<char>, p: &Vec<char>, i: usize) -> (b: bool)
    ensures
        b == occurs_at(s@, p@, i as int),
{
    if p.len() > s.len() || i > s.len() - p.len() {
        return false;
    }
    let mut k: usize = 0;
    while k < p.len()
        invariant
            i + p.len() <= s.len(),
            k <= p.len(),
            forall|j: int| 0 <= j < k ==> s@[i + j] == p@[j],
        decreases p.len() - k,
    {
        if s[i + k] != p[k] {
            assert(s@.subrange(i as int, i + p.len())[k as int] != p@[k as int]);
            return false;
        }
        k += 1;
    }
    assert(s@.subrange(i as int, i + p.len()) =~= p@);
    true
}

pub fn eq_chars(s: &Vec<char>, t: &Vec<char>) -> (b: bool)
    ensures
        b == (s@ == t@),
{
    if s.len() != t.len() {
        return false;
    }
    let b = matches_at(s, t, 0);
    proof {
        assert(s@.subrange(0, s@.len() as int) =~= s@);
    }
    b
}

/// Whether the text equals a literal.
pub fn is(s: &Vec<char>, lit: &str) -> (b: bool)
    ensures
        b == (s@ == lit@),
{
    let p = chars_of(lit);
    eq_chars(s, &p)
}

pub fn begins(s: &Vec<char>, lit: &str) -> (b: bool)
    ensures
        b == starts_with(s@, lit@),
{
    let p = chars_of(lit);
    matches_at(s, &p, 0)
}

pub fn finishes(s: &Vec<char>, lit: &str) -> (b: bool)
    ensures
        b == ends_with(s@, lit@),
{
    let p = chars_of(lit);
    if p.len() > s.len() {
        return false;
    }
    matches_at(s, &p, s.len() - p.len())
}

pub fn find_chars(s: &Vec<char>, p: &Vec<char>) -> (b: bool)
    ensures
        b == contains(s@, p@),
{
    if p.len() > s.len() {
        assert(forall|i: int| !occurs_at(s@, p@, i));
        return false;
    }
    if p.len() == 0 {
        assert(s@.subrange(0, 0) =~= p@);
        assert(occurs_at(s@, p@, 0));
        return true;
    }
    let last = s.len() - p.len();
    let mut i: usize = 0;
    while i <= last
        invariant
            last == s.len() - p.len(),
            last < s.len(),
            i <= last + 1,
            forall|j: int| 0 <= j < i ==> !occurs_at(s@, p@, j),
        decreases last + 1 - i,
    {
        if matches_at(s, p, i) {
            return true;
        }
        i += 1;
    }
    assert forall|j: int| !occurs_at(s@, p@, j) by {
        if 0 <= j && j + p@.len() <= s@.len() {
            assert(j < i);
        }
    }
    false
}

/// Whether the text contains a literal.
pub fn holds(s: &Vec<char>, lit: &str) -> (b: bool)
    ensures
        b == contains(s@, lit@),
{
    let p = chars_of(lit);
    find_chars(s, &p)
}

/// The first index of `c` in `s`.
pub open spec fn first_index(s: Seq<char>, c: char) -> Option<int>
    decreases s.len(),
{
    if s.len() == 0 {
        None
    } else if s[0] == c {
        Some(0)
    } else {
        match first_index(s.drop_first(), c) {
            Some(i) => Some(i + 1),
            None => None,
        }
    }
}

pub proof fn lemma_first_index(s: Seq<char>, c: char)
    ensures
        first_index(s, c) matches Some(i) ==> 0 <= i < s.len() && s[i] == c && forall|j: int|
            0 <= j < i ==> s[j] != c,
        first_index(s, c) is None ==> forall|j: int| 0 <= j < s.len() ==> s[j] != c,
    decreases s.len(),
{
    if s.len() > 0 {
        lemma_first_index(s.drop_first(), c);
        if s[0] != c {
            assert forall|j: int| 1 <= j < s.len() implies s[j] == s.drop_first()[j - 1] by {}
        }
    }
}

/// The first index of `c` in `s` is characterised by its position.
pub proof fn lemma_first_index_is(s: Seq<char>, c: char, i: int)
    requires
        0 <= i <= s.len(),
        i < s.len() ==> s[i] == c,
        forall|j: int| 0 <= j < i ==> s[j] != c,
    ensures
        first_index(s, c) == (if i < s.len() { Some(i) } else { None::<int> }),
{
    lemma_first_index(s, c);
    match first_index(s, c) {
        Some(k) => {
            if k < i {
            } else if k > i {
                assert(s[i] == c);
            }
        },
        None => {
            if i < s.len() {
                assert(s[i] == c);
            }
        },
    }
}

pub fn index_of(s: &Vec<char>, c: char) -> (r: Option<usize>)
    ensures
        r matches Some(i) ==> first_index(s@, c) == Some(i as int),
        r is None ==> first_index(s@, c) is None,
        r matches Some(i) ==> i < s.len(),
{
    let mut i: usize = 0;
    while i < s.len()
        invariant
            i <= s.len(),
            forall|j: int| 0 <= j < i ==> s@[j] != c,
        decreases s.len() - i,
    {
        if s[i] == c {
            proof {
                lemma_first_index_is(s@, c, i as int);
            }
            return Some(i);
        }
        i += 1;
    }
    proof {
        lemma_first_index_is(s@, c, i as int);
    }
    None
}

/// The last index of `c` in `s`.
pub open spec fn last_index(s: Seq<char>, c: char) -> Option<int>
    decreases s.len(),
{
    if s.len() == 0 {
        None
    } else if s.last() == c {
        Some(s.len() - 1)
    } else {
        last_index(s.drop_last(), c)
    }
}

pub fn rindex_of(s: &Vec<char>, c: char) -> (r: Option<usize>)
    ensures
        r matches Some(i) ==> last_index(s@, c) == Some(i as int) && i < s.len(),
        r is None ==> last_index(s@, c) is None,
{
    let mut n: usize = s.len();
    assert(s@.subrange(0, n as int) =~= s@);
    while n > 0
        invariant
            n <= s.len(),
            last_index(s@, c) == last_index(s@.subrange(0, n as int), c),
        decreases n,
    {
        assert(s@.subrange(0, n as int).drop_last() =~= s@.subrange(0, n - 1));
        if s[n - 1] == c {
            return Some(n - 1);
        }
        n -= 1;
    }
    None
}

// ---------------------------------------------------------------------------
// Trimming
// ---------------------------------------------------------------------------

pub open spec fn trim_start(s: Seq<char>) -> Seq<char>
    decreases s.len(),
{
    if s.len() > 0 && is_ws(s[0]) {
        trim_start(s.drop_first())
    } else {
        s
    }
}

pub open spec fn trim_end(s: Seq<char>) -> Seq<char>
    decreases s.len(),
{
    if s.len() > 0 && is_ws(s.last()) {
        trim_end(s.drop_last())
    } else {
        s
    }
}

/// What `str::trim` leaves of a text.
pub open spec fn trim(s: Seq<char>) -> Seq<char> {
    trim_end(trim_start(s))
}

pub fn trim_chars(s: &Vec<char>) -> (r: Vec<char>)
    ensures
        r@ == trim(s@),
{
    let mut i: usize = 0;
    assert(s@.subrange(0, s.len() as int) =~= s@);
    while i < s.len() && whitespace(s[i])
        invariant
            i <= s.len(),
            trim_start(s@) == trim_start(s@.subrange(i as int, s.len() as int)),
        decreases s.len() - i,
    {
        assert(s@.subrange(i as int, s.len() as int).drop_first() =~= s@.subrange(
            i + 1,
            s.len() as int,
        ));
        i += 1;
    }
    let mut j: usize = s.len();
    assert(s@.subrange(i as int, j as int) == trim_start(s@));
    while j > i && whitespace(s[j - 1])
        invariant
            i <= j <= s.len(),
            trim(s@) == trim_end(s@.subrange(i as int, j as int)),
        decreases j,
    {
        assert(s@.subrange(i as int, j as int).drop_last() =~= s@.subrange(i as int, j - 1));
        j -= 1;
    }
    copy_range(s, i, j)
}

/// Repeatedly strips a trailing `c`, as `trim_end_matches(c)` does.
pub open spec fn strip_end_all(s: Seq<char>, c: char) -> Seq<char>
    decreases s.len(),
{
    if s.len() > 0 && s.last() == c {
        strip_end_all(s.drop_last(), c)
    } else {
        s
    }
}

pub fn trim_end_matches(s: &Vec<char>, c: char) -> (r: Vec<char>)
    ensures
        r@ == strip_end_all(s@, c),
{
    let mut j: usize = s.len();
    assert(s@.subrange(0, j as int) =~= s@);
    while j > 0 && s[j - 1] == c
        invariant
            j <= s.len(),
            strip_end_all(s@, c) == strip_end_all(s@.subrange(0, j as int), c),
        decreases j,
    {
        assert(s@.subrange(0, j as int).drop_last() =~= s@.subrange(0, j - 1));
        j -= 1;
    }
    copy_range(s, 0, j)
}

// ---------------------------------------------------------------------------
// Lines
// ---------------------------------------------------------------------------

/// A line ended by `\n` loses one trailing `\r`.
pub open spec fn strip_cr(l: Seq<char>) -> Seq<char> {
    if l.len() > 0 && l.last() == '\r' {
        l.drop_last()
    } else {
        l
    }
}

/// Splits the rest `s` of a text, the current line so far being `cur`.
pub open spec fn lines_from(s: Seq<char>, cur: Seq<char>) -> Seq<Seq<char>>
    decreases s.len(),
{
    if s.len() == 0 {
        if cur.len() == 0 {
            seq![]
        } else {
            seq![cur]
        }
    } else if s[0] == '\n' {
        seq![strip_cr(cur)] + lines_from(s.drop_first(), seq![])
    } else {
        lines_from(s.drop_first(), cur.push(s[0]))
    }
}

/// The lines of a text, as `str::lines` yields them: split at `\n`, a `\r`
/// before the `\n` dropped, and no empty last line after a final `\n`.
pub open spec fn lines(s: Seq<char>) -> Seq<Seq<char>> {
    lines_from(s, seq![])
}

/// The views of a vector of character vectors.
pub open spec fn views(v: Seq<Vec<char>>) -> Seq<Seq<char>> {
    v.map_values(|l: Vec<char>| l@)
}

pub fn split_lines(s: &Vec<char>) -> (r: Vec<Vec<char>>)
    ensures
        views(r@) == lines(s@),
{
    let mut r: Vec<Vec<char>> = Vec::new();
    let mut cur: Vec<char> = Vec::new();
    let mut i: usize = 0;
    assert(s@.subrange(0, s.len() as int) =~= s@);
    assert(views(r@) =~= seq![]);
    assert(cur@ =~= seq![]);
    assert(lines(s@) =~= views(r@) + lines(s@));
    while i < s.len()
        invariant
            i <= s.len(),
            lines(s@) == views(r@) + lines_from(s@.subrange(i as int, s.len() as int), cur@),
        decreases s.len() - i,
    {
        let ghost rest = s@.subrange(i as int, s.len() as int);
        assert(rest.drop_first() =~= s@.subrange(i + 1, s.len() as int));
        if s[i] == '\n' {
            let line = if cur.len() > 0 && cur[cur.len() - 1] == '\r' {
                let n = cur.len() - 1;
                copy_range(&cur, 0, n)
            } else {
                cur
            };
            proof {
                if cur@.len() > 0 && cur@.last() == '\r' {
                    assert(cur@.subrange(0, cur@.len() - 1) =~= cur@.drop_last());
                }
                assert(line@ == strip_cr(cur@));
            }
            let ghost before = views(r@);
            r.push(line);
            assert(views(r@) =~= before.push(strip_cr(cur@)));
            assert(views(r@) + lines_from(rest.drop_first(), seq![]) =~= before + (seq![
                strip_cr(cur@),
            ] + lines_from(rest.drop_first(), seq![])));
            cur = Vec::new();
            assert(cur@ =~= seq![]);
        } else {
            cur.push(s[i]);
        }
        i += 1;
    }
    assert(s@.subrange(i as int, s.len() as int) =~= seq![]);
    if cur.len() > 0 {
        let ghost before = views(r@);
        r.push(cur);
        assert(views(r@) =~= before + seq![cur@]);
    } else {
        assert(views(r@) + seq![] =~= views(r@));
    }
    r
}

/// The lines of a text.
pub fn text_lines(s: &str) -> (r: Vec<Vec<char>>)
    ensures
        views(r@) == lines(s@),
{
    let c = chars_of(s);
    split_lines(&c)
}

// ---------------------------------------------------------------------------
// Pieces of a line
// ---------------------------------------------------------------------------

/// What follows the first `:` of a line, trimmed.
pub open spec fn after_colon(s: Seq<char>) -> Option<Seq<char>> {
    match first_index(s, ':') {
        Some(i) => Some(trim(s.subrange(i + 1, s.len() as int))),
        None => None,
    }
}

pub fn value_after_colon(s: &Vec<char>) -> (r: Option<Vec<char>>)
    ensures
        r matches Some(v) ==> after_colon(s@) == Some(v@),
        r is None ==> after_colon(s@) is None,
{
    match index_of(s, ':') {
        Some(i) => {
            let rest = copy_range(s, i + 1, s.len());
            Some(trim_chars(&rest))
        },
        None => None,
    }
}

/// Splits `s` at every character that `sep` holds of, keeping empty pieces,
/// as `str::split` does; `cur` is the piece begun so far.
pub open spec fn pieces_from(s: Seq<char>, sep: spec_fn(char) -> bool, cur: Seq<char>) -> Seq<Seq<char>>
    decreases s.len(),
{
    if s.len() == 0 {
        seq![cur]
    } else if sep(s[0]) {
        seq![cur] + pieces_from(s.drop_first(), sep, seq![])
    } else {
        pieces_from(s.drop_first(), sep, cur.push(s[0]))
    }
}

pub open spec fn pieces(s: Seq<char>, sep: spec_fn(char) -> bool) -> Seq<Seq<char>> {
    pieces_from(s, sep, seq![])
}

pub open spec fn is_char(c: char) -> spec_fn(char) -> bool {
    |x: char| x == c
}

/// `str::split(c)`.
pub fn split_at_char(s: &Vec<char>, c: char) -> (r: Vec<Vec<char>>)
    ensures
        views(r@) == pieces(s@, is_char(c)),
{
    let mut r: Vec<Vec<char>> = Vec::new();
    let mut cur: Vec<char> = Vec::new();
    let mut i: usize = 0;
    assert(s@.subrange(0, s.len() as int) =~= s@);
    assert(views(r@) =~= seq![]);
    assert(cur@ =~= seq![]);
    assert(pieces(s@, is_char(c)) =~= views(r@) + pieces(s@, is_char(c)));
    while i < s.len()
        invariant
            i <= s.len(),
            pieces(s@, is_char(c)) == views(r@) + pieces_from(
                s@.subrange(i as int, s.len() as int),
                is_char(c),
                cur@,
            ),
        decreases s.len() - i,
    {
        let ghost rest = s@.subrange(i as int, s.len() as int);
        assert(rest.drop_first() =~= s@.subrange(i + 1, s.len() as int));
        if s[i] == c {
            let ghost before = views(r@);
            let ghost piece = cur@;
            r.push(cur);
            assert(views(r@) =~= before.push(piece));
            assert(views(r@) + pieces_from(rest.drop_first(), is_char(c), seq![]) =~= before + (
            seq![piece] + pieces_from(rest.drop_first(), is_char(c), seq![])));
            cur = Vec::new();
            assert(cur@ =~= seq![]);
        } else {
            cur.push(s[i]);
        }
        i += 1;
    }
    assert(s@.subrange(i as int, s.len() as int) =~= seq![]);
    let ghost before = views(r@);
    r.push(cur);
    assert(views(r@) =~= before + seq![cur@]);
    r
}

/// Splits `s` into the maximal runs of non-whitespace, as
/// `str::split_whitespace` does; `cur` is the run begun so far.
pub open spec fn words_from(s: Seq<char>, cur: Seq<char>) -> Seq<Seq<char>>
    decreases s.len(),
{
    if s.len() == 0 {
        if cur.len() == 0 {
            seq![]
        } else {
            seq![cur]
        }
    } else if is_ws(s[0]) {
        if cur.len() == 0 {
            words_from(s.drop_first(), seq![])
        } else {
            seq![cur] + words_from(s.drop_first(), seq![])
        }
    } else {
        words_from(s.drop_first(), cur.push(s[0]))
    }
}

pub open spec fn words(s: Seq<char>) -> Seq<Seq<char>> {
    words_from(s, seq![])
}

pub fn split_whitespace(s: &Vec<char>) -> (r: Vec<Vec<char>>)
    ensures
        views(r@) == words(s@),
{
    let mut r: Vec<Vec<char>> = Vec::new();
    let mut cur: Vec<char> = Vec::new();
    let mut i: usize = 0;
    assert(s@.subrange(0, s.len() as int) =~= s@);
    assert(views(r@) =~= seq![]);
    assert(cur@ =~= seq![]);
    assert(words(s@) =~= views(r@) + words(s@));
    while i < s.len()
        invariant
            i <= s.len(),
            words(s@) == views(r@) + words_from(s@.subrange(i as int, s.len() as int), cur@),
        decreases s.len() - i,
    {
        let ghost rest = s@.subrange(i as int, s.len() as int);
        assert(rest.drop_first() =~= s@.subrange(i + 1, s.len() as int));
        if whitespace(s[i]) {
            if cur.len() > 0 {
                let ghost before = views(r@);
                let ghost piece = cur@;
                r.push(cur);
                assert(views(r@) =~= before.push(piece));
                assert(views(r@) + words_from(rest.drop_first(), seq![]) =~= before + (seq![piece]
                    + words_from(rest.drop_first(), seq![])));
                cur = Vec::new();
                assert(cur@ =~= seq![]);
            } else {
                assert(cur@ =~= seq![]);
            }
        } else {
            cur.push(s[i]);
        }
        i += 1;
    }
    assert(s@.subrange(i as int, s.len() as int) =~= seq![]);
    if cur.len() > 0 {
        let ghost before = views(r@);
        r.push(cur);
        assert(views(r@) =~= before + seq![cur@]);
    } else {
        assert(views(r@) + seq![] =~= views(r@));
    }
    r
}

// ---------------------------------------------------------------------------
// Integers
// ---------------------------------------------------------------------------

pub open spec fn all_digits(s: Seq<char>) -> bool {
    forall|i: int| 0 <= i < s.len() ==> is_digit(#[trigger] s[i])
}

/// The decimal value of a digit string (0 for the empty string).
pub open spec fn digits_value(s: Seq<char>) -> nat
    decreases s.len(),
{
    if s.len() == 0 {
        0
    } else {
        digits_value(s.drop_last()) * 10 + digit_value(s.last())
    }
}

/// What `str::parse` gives for an unsigned integer type whose largest value is
/// `max`: an optional `+`, then at least one digit, and no overflow.
pub open spec fn parse_unsigned(s: Seq<char>, max: nat) -> Option<nat> {
    let d = if s.len() > 0 && s[0] == '+' {
        s.drop_first()
    } else {
        s
    };
    if d.len() > 0 && all_digits(d) && digits_value(d) <= max {
        Some(digits_value(d))
    } else {
        None
    }
}

/// What `str::parse::<i32>` gives.
pub open spec fn parse_i32(s: Seq<char>) -> Option<int> {
    if s.len() > 0 && s[0] == '-' {
        let d = s.drop_first();
        if d.len() > 0 && all_digits(d) && digits_value(d) <= 2147483648 {
            Some(-(digits_value(d) as int))
        } else {
            None
        }
    } else {
        match parse_unsigned(s, 2147483647) {
            Some(v) => Some(v as int),
            None => None,
        }
    }
}

pub proof fn lemma_digits_value_prefix(s: Seq<char>, k: int)
    requires
        0 <= k <= s.len(),
        all_digits(s),
    ensures
        digits_value(s.subrange(0, k)) <= digits_value(s),
    decreases s.len(),
{
    if k < s.len() {
        assert(s.drop_last() =~= s.subrange(0, s.len() - 1));
        assert(s.subrange(0, s.len() - 1).subrange(0, k) =~= s.subrange(0, k));
        assert(all_digits(s.drop_last()));
        lemma_digits_value_prefix(s.drop_last(), k);
    } else {
        assert(s.subrange(0, k) =~= s);
    }
}

/// The value of `s[from..]` when it is a nonempty digit string of value at most
/// `max`.
pub fn digits_at_most(s: &Vec<char>, from: usize, max: u64) -> (r: Option<u64>)
    requires
        from <= s.len(),
    ensures
        ({
            let d = s@.subrange(from as int, s.len() as int);
            r == (if d.len() > 0 && all_digits(d) && digits_value(d) <= max {
                Some(digits_value(d) as u64)
            } else {
                None::<u64>
            })
        }),
{
    let ghost d = s@.subrange(from as int, s.len() as int);
    if from == s.len() {
        return None;
    }
    let mut v: u64 = 0;
    let mut i: usize = from;
    assert(d.subrange(0, 0) =~= seq![]);
    while i < s.len()
        invariant
            from <= i <= s.len(),
            d == s@.subrange(from as int, s.len() as int),
            v <= max,
            v == digits_value(d.subrange(0, i - from)),
            all_digits(d.subrange(0, i - from)),
        decreases s.len() - i,
    {
        let c = s[i];
        assert(d[i - from] == c);
        if !digit(c) {
            assert(!all_digits(d));
            return None;
        }
        let dv: u64 = (c as u32 - '0' as u32) as u64;
        let ghost p = d.subrange(0, i - from + 1);
        assert(p.drop_last() =~= d.subrange(0, i - from));
        assert(p.last() == c);
        let too_big: bool = if v > max / 10 {
            true
        } else {
            dv > max - v * 10
        };
        proof {
            assert(digits_value(p) == v * 10 + dv);
            if v > max / 10 {
                assert(v * 10 > max) by (nonlinear_arith)
                    requires
                        v > max / 10,
                ;
            } else {
                assert(v * 10 <= max) by (nonlinear_arith)
                    requires
                        v <= max / 10,
                ;
            }
        }
        if too_big {
            proof {
                if all_digits(d) {
                    lemma_digits_value_prefix(d, i - from + 1);
                }
            }
            return None;
        }
        v = v * 10 + dv;
        i += 1;
        assert(all_digits(p));
    }
    assert(d.subrange(0, i - from) =~= d);
    Some(v)
}

pub fn parse_uint(s: &Vec<char>, max: u64) -> (r: Option<u64>)
    ensures
        r matches Some(v) ==> parse_unsigned(s@, max as nat) == Some(v as nat),
        r is None ==> parse_unsigned(s@, max as nat) is None,
{
    let from: usize = if s.len() > 0 && s[0] == '+' {
        1
    } else {
        0
    };
    proof {
        if from == 1 {
            assert(s@.subrange(1, s.len() as int) =~= s@.drop_first());
        } else {
            assert(s@.subrange(0, s.len() as int) =~= s@);
        }
    }
    digits_at_most(s, from, max)
}

pub fn parse_int32(s: &Vec<char>) -> (r: Option<i32>)
    ensures
        r matches Some(v) ==> parse_i32(s@) == Some(v as int),
        r is None ==> parse_i32(s@) is None,
{
    if s.len() > 0 && s[0] == '-' {
        assert(s@.subrange(1, s.len() as int) =~= s@.drop_first());
        match digits_at_most(s, 1, 2147483648) {
            Some(v) => {
                let r: i64 = 0 - (v as i64);
                Some(r as i32)
            },
            None => None,
        }
    } else {
        match parse_uint(s, 2147483647) {
            Some(v) => Some(v as i32),
            None => None,
        }
    }
}

// ---------------------------------------------------------------------------
// Writing numbers
// ---------------------------------------------------------------------------

pub open spec fn digit_char(d: nat) -> char {
    (('0' as u32) + d) as char
}

/// The decimal digits of `n`, without leading zeros, as `Display` writes an
/// unsigned integer.
pub open spec fn decimal(n: nat) -> Seq<char>
    decreases n,
{
    if n < 10 {
        seq![digit_char(n)]
    } else {
        decimal(n / 10).push(digit_char(n % 10))
    }
}

pub fn push_decimal(out: &mut Vec<char>, n: u64)
    ensures
        final(out)@ == old(out)@ + decimal(n as nat),
    decreases n,
{
    if n >= 10 {
        push_decimal(out, n / 10);
    }
    let d: u8 = (n % 10) as u8;
    let c: char = (48u8 + d) as char;
    out.push(c);
    proof {
        assert(c == digit_char((n % 10) as nat));
    }
}

// ---------------------------------------------------------------------------
// Joining and prefixes
// ---------------------------------------------------------------------------

/// The parts written one after another with `sep` between them.
pub open spec fn join(parts: Seq<Seq<char>>, sep: Seq<char>) -> Seq<char>
    decreases parts.len(),
{
    if parts.len() == 0 {
        seq![]
    } else if parts.len() == 1 {
        parts[0]
    } else {
        join(parts.drop_last(), sep) + sep + parts.last()
    }
}

/// Joins `parts[from..to]` with `sep` between them.
pub fn join_range(parts: &Vec<Vec<char>>, from: usize, to: usize, sep: &str) -> (r: Vec<char>)
    requires
        from <= to <= parts.len(),
    ensures
        r@ == join(views(parts@).subrange(from as int, to as int), sep@),
{
    let sep_chars = chars_of(sep);
    let mut r: Vec<char> = Vec::new();
    let mut i = from;
    assert(views(parts@).subrange(from as int, from as int) =~= seq![]);
    while i < to
        invariant
            from <= i <= to <= parts.len(),
            sep_chars@ == sep@,
            r@ == join(views(parts@).subrange(from as int, i as int), sep@),
        decreases to - i,
    {
        let ghost done = views(parts@).subrange(from as int, i as int);
        let ghost next = views(parts@).subrange(from as int, i + 1);
        assert(next.drop_last() =~= done);
        assert(next.last() == parts@[i as int]@);
        if i > from {
            append_chars(&mut r, &sep_chars);
        } else {
            assert(r@ =~= seq![]);
        }
        append_chars(&mut r, &parts[i]);
        i += 1;
        proof {
            if i - 1 > from {
                assert(r@ =~= join(done, sep@) + sep@ + next.last());
            } else {
                assert(r@ =~= next[0]);
            }
        }
    }
    r
}

/// The rest of `t` after the prefix `p`, when `t` begins with it.
pub open spec fn strip_prefix(t: Seq<char>, p: Seq<char>) -> Option<Seq<char>> {
    if starts_with(t, p) {
        Some(t.subrange(p.len() as int, t.len() as int))
    } else {
        None
    }
}

pub fn after_prefix(t: &Vec<char>, lit: &str) -> (r: Option<Vec<char>>)
    ensures
        r matches Some(v) ==> strip_prefix(t@, lit@) == Some(v@),
        r is None ==> strip_prefix(t@, lit@) is None,
{
    let p = chars_of(lit);
    if matches_at(t, &p, 0) {
        Some(copy_range(t, p.len(), t.len()))
    } else {
        None
    }
}

/// The first index at which `p` occurs in `s`.
pub open spec fn first_occurrence(s: Seq<char>, p: Seq<char>) -> Option<int> {
    if contains(s, p) {
        Some(
            choose|i: int|
                occurs_at(s, p, i) && forall|j: int| 0 <= j < i ==> !occurs_at(s, p, j),
        )
    } else {
        None
    }
}

pub fn find_first(s: &Vec<char>, lit: &str) -> (r: Option<usize>)
    ensures
        r matches Some(i) ==> first_occurrence(s@, lit@) == Some(i as int),
        r is None ==> first_occurrence(s@, lit@) is None,
{
    let p = chars_of(lit);
    if p.len() == 0 {
        proof {
            assert(s@.subrange(0, 0) =~= p@);
            assert(occurs_at(s@, p@, 0));
            let k = choose|k: int|
                occurs_at(s@, p@, k) && forall|j: int| 0 <= j < k ==> !occurs_at(s@, p@, j);
            if k > 0 {
                assert(!occurs_at(s@, p@, 0));
            }
        }
        return Some(0);
    }
    let mut i: usize = 0;
    while i < s.len()
        invariant
            p@ == lit@,
            p@.len() > 0,
            i <= s.len(),
            forall|j: int| 0 <= j < i ==> !occurs_at(s@, p@, j),
        decreases s.len() - i,
    {
        if matches_at(s, &p, i) {
            proof {
                let k = choose|k: int|
                    occurs_at(s@, p@, k) && forall|j: int| 0 <= j < k ==> !occurs_at(s@, p@, j);
                assert(occurs_at(s@, p@, i as int));
                if k < i {
                } else if k > i {
                    assert(!occurs_at(s@, p@, i as int));
                }
            }
            return Some(i);
        }
        i += 1;
    }
    proof {
        assert forall|j: int| !occurs_at(s@, p@, j) by {
            if 0 <= j && j + p@.len() <= s@.len() {
                assert(j < i);
            }
        }
    }
    None
}

// ---------------------------------------------------------------------------
// Ordering texts
// ---------------------------------------------------------------------------

/// Lexicographic order by code point, strict: how `String`'s `Ord` orders
/// texts (UTF-8 preserves the order of code points).
pub open spec fn lex_lt(a: Seq<char>, b: Seq<char>) -> bool
    decreases a.len(),
{
    if a.len() == 0 {
        b.len() > 0
    } else if b.len() == 0 {
        false
    } else if a[0] != b[0] {
        a[0] < b[0]
    } else {
        lex_lt(a.drop_first(), b.drop_first())
    }
}

pub proof fn lemma_lex_irreflexive(a: Seq<char>)
    ensures
        !lex_lt(a, a),
    decreases a.len(),
{
    if a.len() > 0 {
        lemma_lex_irreflexive(a.drop_first());
    }
}

pub proof fn lemma_lex_asymmetric(a: Seq<char>, b: Seq<char>)
    ensures
        !(lex_lt(a, b) && lex_lt(b, a)),
    decreases a.len(),
{
    if a.len() > 0 && b.len() > 0 && a[0] == b[0] {
        lemma_lex_asymmetric(a.drop_first(), b.drop_first());
    }
}

pub proof fn lemma_lex_transitive(a: Seq<char>, b: Seq<char>, c: Seq<char>)
    requires
        lex_lt(a, b),
        lex_lt(b, c),
    ensures
        lex_lt(a, c),
    decreases a.len(),
{
    if a.len() > 0 && b.len() > 0 && c.len() > 0 && a[0] == b[0] && b[0] == c[0] {
        lemma_lex_transitive(a.drop_first(), b.drop_first(), c.drop_first());
    }
}

pub proof fn lemma_lex_total(a: Seq<char>, b: Seq<char>)
    ensures
        lex_lt(a, b) || lex_lt(b, a) || a == b,
    decreases a.len(),
{
    if a.len() == 0 {
        if b.len() == 0 {
            assert(a =~= b);
        }
    } else if b.len() > 0 && a[0] == b[0] {
        lemma_lex_total(a.drop_first(), b.drop_first());
        if a.drop_first() == b.drop_first() {
            assert(a =~= seq![a[0]] + a.drop_first());
            assert(b =~= seq![b[0]] + b.drop_first());
        }
    }
}

pub fn lex_less(a: &Vec<char>, b: &Vec<char>) -> (r: bool)
    ensures
        r == lex_lt(a@, b@),
{
    let mut k: usize = 0;
    assert(a@.subrange(0, a.len() as int) =~= a@);
    assert(b@.subrange(0, b.len() as int) =~= b@);
    while k < a.len() && k < b.len() && a[k] == b[k]
        invariant
            k <= a.len(),
            k <= b.len(),
            lex_lt(a@, b@) == lex_lt(
                a@.subrange(k as int, a.len() as int),
                b@.subrange(k as int, b.len() as int),
            ),
        decreases a.len() - k,
    {
        assert(a@.subrange(k as int, a.len() as int).drop_first() =~= a@.subrange(
            k + 1,
            a.len() as int,
        ));
        assert(b@.subrange(k as int, b.len() as int).drop_first() =~= b@.subrange(
            k + 1,
            b.len() as int,
        ));
        k += 1;
    }
    if k == a.len() {
        k < b.len()
    } else if k == b.len() {
        false
    } else {
        a[k] < b[k]
    }
}

proof fn lemma_least_occurrence(s: Seq<char>, p: Seq<char>, k: int)
    requires
        occurs_at(s, p, k),
    ensures
        exists|i: int| occurs_at(s, p, i) && forall|j: int| 0 <= j < i ==> !occurs_at(s, p, j),
    decreases k,
{
    if exists|j: int| 0 <= j < k && occurs_at(s, p, j) {
        let j = choose|j: int| 0 <= j < k && occurs_at(s, p, j);
        lemma_least_occurrence(s, p, j);
    } else {
        assert(occurs_at(s, p, k) && forall|j: int| 0 <= j < k ==> !occurs_at(s, p, j));
    }
}

pub proof fn lemma_first_occurrence_bounds(s: Seq<char>, p: Seq<char>, i: int)
    requires
        first_occurrence(s, p) == Some(i),
    ensures
        0 <= i && i + p.len() <= s.len(),
{
    let k = choose|k: int| occurs_at(s, p, k);
    lemma_least_occurrence(s, p, k);
}

// ---------------------------------------------------------------------------
// Facts about lower-casing, trimming and splitting
// ---------------------------------------------------------------------------

/// ASCII lower-casing twice is lower-casing once.
pub proof fn lemma_lower_idempotent(s: Seq<char>)
    ensures
        lower(lower(s)) == lower(s),
{
    assert(lower(lower(s)) =~= lower(s));
}

pub proof fn lemma_lower_add(a: Seq<char>, b: Seq<char>)
    ensures
        lower(a + b) == lower(a) + lower(b),
{
    assert(lower(a + b) =~= lower(a) + lower(b));
}

/// Lower-casing and trimming commute: lower-casing touches no whitespace.
pub proof fn lemma_trim_lower(s: Seq<char>)
    ensures
        trim(lower(s)) == lower(trim(s)),
{
    lemma_trim_start_lower(s);
    lemma_trim_end_lower(trim_start(s));
}

proof fn lemma_trim_start_lower(s: Seq<char>)
    ensures
        trim_start(lower(s)) == lower(trim_start(s)),
    decreases s.len(),
{
    if s.len() > 0 {
        assert(lower(s)[0] == lower_char(s[0]));
        if is_ws(s[0]) {
            assert(lower(s).drop_first() =~= lower(s.drop_first()));
            lemma_trim_start_lower(s.drop_first());
        }
    }
}

proof fn lemma_trim_end_lower(s: Seq<char>)
    ensures
        trim_end(lower(s)) == lower(trim_end(s)),
    decreases s.len(),
{
    if s.len() > 0 {
        assert(lower(s).last() == lower_char(s.last()));
        if is_ws(s.last()) {
            assert(lower(s).drop_last() =~= lower(s.drop_last()));
            lemma_trim_end_lower(s.drop_last());
        }
    }
}

/// The pieces of a lower-cased text at `:` are the lower-cased pieces.
pub proof fn lemma_pieces_lower(s: Seq<char>, cur: Seq<char>)
    ensures
        pieces_from(lower(s), is_char(':'), lower(cur)) == pieces_from(s, is_char(':'), cur).map_values(
            |p: Seq<char>| lower(p),
        ),
    decreases s.len(),
{
    let sep = is_char(':');
    if s.len() == 0 {
        assert(lower(s) =~= seq![]);
        assert(seq![cur].map_values(|p: Seq<char>| lower(p)) =~= seq![lower(cur)]);
    } else {
        assert(lower(s)[0] == lower_char(s[0]));
        assert(lower(s).drop_first() =~= lower(s.drop_first()));
        if s[0] == ':' {
            lemma_pieces_lower(s.drop_first(), seq![]);
            assert(lower(seq![]) =~= Seq::<char>::empty());
            let rest = pieces_from(s.drop_first(), sep, seq![]);
            assert((seq![cur] + rest).map_values(|p: Seq<char>| lower(p)) =~= seq![lower(cur)]
                + rest.map_values(|p: Seq<char>| lower(p)));
        } else {
            assert(lower(cur.push(s[0])) =~= lower(cur).push(lower_char(s[0])));
            lemma_pieces_lower(s.drop_first(), cur.push(s[0]));
        }
    }
}

/// A text without separator is one piece.
pub proof fn lemma_pieces_whole(s: Seq<char>, cur: Seq<char>)
    requires
        forall|i: int| 0 <= i < s.len() ==> s[i] != ':',
    ensures
        pieces_from(s, is_char(':'), cur) == seq![cur + s],
    decreases s.len(),
{
    if s.len() == 0 {
        assert(cur + s =~= cur);
    } else {
        assert(cur.push(s[0]) + s.drop_first() =~= cur + s);
        lemma_pieces_whole(s.drop_first(), cur.push(s[0]));
    }
}

/// A text `a:b` where `a` holds no separator splits into `a` and the pieces
/// of `b`.
pub proof fn lemma_pieces_split(a: Seq<char>, b: Seq<char>, cur: Seq<char>)
    requires
        forall|i: int| 0 <= i < a.len() ==> a[i] != ':',
    ensures
        pieces_from(a + seq![':'] + b, is_char(':'), cur) == seq![cur + a] + pieces_from(
            b,
            is_char(':'),
            seq![],
        ),
    decreases a.len(),
{
    let s = a + seq![':'] + b;
    if a.len() == 0 {
        assert(s[0] == ':');
        assert(s.drop_first() =~= b);
        assert(cur + a =~= cur);
    } else {
        assert(s[0] == a[0]);
        assert(s.drop_first() =~= a.drop_first() + seq![':'] + b);
        assert(cur.push(a[0]) + a.drop_first() =~= cur + a);
        lemma_pieces_split(a.drop_first(), b, cur.push(a[0]));
    }
}

} // verus!
