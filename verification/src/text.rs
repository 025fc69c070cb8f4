//! Character-level string helpers with the meaning Rust's `str` methods give
//! them: Unicode whitespace trimming, ASCII case folding and searching.
use vstd::prelude::*;

verus! {

/// Unicode `White_Space` property (what `char::is_whitespace` tests).
pub open spec fn is_ws(c: char) -> bool {
    ||| ('\u{9}' <= c && c <= '\u{d}')
    ||| c == ' '
    ||| c == '\u{85}'
    ||| c == '\u{a0}'
    ||| c == '\u{1680}'
    ||| ('\u{2000}' <= c && c <= '\u{200a}')
    ||| c == '\u{2028}'
    ||| c == '\u{2029}'
    ||| c == '\u{202f}'
    ||| c == '\u{205f}'
    ||| c == '\u{3000}'
}

/// `s` without its leading whitespace.
pub open spec fn trim_start(s: Seq<char>) -> Seq<char>
    decreases s.len(),
{
    if s.len() > 0 && is_ws(s[0]) {
        trim_start(s.drop_first())
    } else {
        s
    }
}

/// `s` without its trailing whitespace.
pub open spec fn trim_end(s: Seq<char>) -> Seq<char>
    decreases s.len(),
{
    if s.len() > 0 && is_ws(s.last()) {
        trim_end(s.drop_last())
    } else {
        s
    }
}

/// `s` without leading and trailing whitespace (what `str::trim` returns).
pub open spec fn trim(s: Seq<char>) -> Seq<char> {
    trim_end(trim_start(s))
}

/// ASCII letters and digits.
pub open spec fn is_ascii_alnum(c: char) -> bool {
    ('a' <= c && c <= 'z') || ('A' <= c && c <= 'Z') || ('0' <= c && c <= '9')
}

/// `char::to_ascii_lowercase`.
pub open spec fn lower_char(c: char) -> char {
    if 'A' <= c && c <= 'Z' {
        ((c as u32) + 32) as char
    } else {
        c
    }
}

/// `char::to_ascii_uppercase`.
pub open spec fn upper_char(c: char) -> char {
    if 'a' <= c && c <= 'z' {
        ((c as u32) - 32) as char
    } else {
        c
    }
}

/// `str::to_ascii_lowercase`.
pub open spec fn lower(s: Seq<char>) -> Seq<char> {
    s.map_values(|c: char| lower_char(c))
}

/// `a` starts with `p`.
pub open spec fn has_prefix(a: Seq<char>, p: Seq<char>) -> bool {
    p.len() <= a.len() && a.subrange(0, p.len() as int) == p
}

/// `a` ends with `p`.
pub open spec fn has_suffix(a: Seq<char>, p: Seq<char>) -> bool {
    p.len() <= a.len() && a.subrange(a.len() - p.len(), a.len() as int) == p
}

/// `p` occurs in `a` starting at position `i`.
pub open spec fn occurs_at(a: Seq<char>, p: Seq<char>, i: int) -> bool {
    0 <= i && i + p.len() <= a.len() && a.subrange(i, i + p.len()) == p
}

/// `p` occurs somewhere in `a` (what `str::contains` tests).
pub open spec fn contains_seq(a: Seq<char>, p: Seq<char>) -> bool {
    exists|i: int| occurs_at(a, p, i)
}

/// Appends one character (`String::push`).
#[verifier::external_body]
pub(crate) fn push_char(s: &mut String, c: char)
    ensures
        final(s)@ == old(s)@.push(c),
{
    s.push(c);
}

pub fn is_ws_char(c: char) -> (r: bool)
    ensures
        r == is_ws(c),
{
    ('\u{9}' <= c && c <= '\u{d}') || c == ' ' || c == '\u{85}' || c == '\u{a0}' || c == '\u{1680}'
        || ('\u{2000}' <= c && c <= '\u{200a}') || c == '\u{2028}' || c == '\u{2029}' || c
        == '\u{202f}' || c == '\u{205f}' || c == '\u{3000}'
}

pub fn is_ascii_alnum_char(c: char) -> (r: bool)
    ensures
        r == is_ascii_alnum(c),
{
    ('a' <= c && c <= 'z') || ('A' <= c && c <= 'Z') || ('0' <= c && c <= '9')
}

pub fn lower_ascii_char(c: char) -> (r: char)
    ensures
        r == lower_char(c),
{
    if 'A' <= c && c <= 'Z' {
        let v: u8 = (c as u8) + 32;
        v as char
    } else {
        c
    }
}

pub fn upper_ascii_char(c: char) -> (r: char)
    ensures
        r == upper_char(c),
{
    if 'a' <= c && c <= 'z' {
        let v: u8 = (c as u8) - 32;
        v as char
    } else {
        c
    }
}

proof fn lemma_trim_start_step(s: Seq<char>, i: int)
    requires
        0 <= i < s.len(),
        is_ws(s[i]),
    ensures
        trim_start(s.subrange(i, s.len() as int)) == trim_start(s.subrange(i + 1, s.len() as int)),
{
    let t = s.subrange(i, s.len() as int);
    assert(t.drop_first() =~= s.subrange(i + 1, s.len() as int));
}

proof fn lemma_trim_end_step(s: Seq<char>, i: int, j: int)
    requires
        0 <= i < j <= s.len(),
        is_ws(s[j - 1]),
    ensures
        trim_end(s.subrange(i, j)) == trim_end(s.subrange(i, j - 1)),
{
    let t = s.subrange(i, j);
    assert(t.drop_last() =~= s.subrange(i, j - 1));
}

/// `str::trim`: the slice without leading and trailing whitespace.
pub fn trim_str(s: &str) -> (r: &str)
    ensures
        r@ == trim(s@),
{
    let s_cs = crate::text::chars_of(s);
    let n = s_cs.len();
    let mut i: usize = 0;
    proof {
        assert(s@.subrange(0, n as int) =~= s@);
    }
    while i < n && is_ws_char(s_cs[i])
        invariant
            s_cs@ == s@,
            n == s@.len(),
            i <= n,
            trim_start(s@) == trim_start(s@.subrange(i as int, n as int)),
        decreases n - i,
    {
        proof {
            lemma_trim_start_step(s@, i as int);
        }
        i = i + 1;
    }
    proof {
        let t = s@.subrange(i as int, n as int);
        if i == n {
            assert(t.len() == 0);
        } else {
            assert(t[0] == s@[i as int]);
        }
        assert(trim_start(s@) == t);
        assert(s@.subrange(0, n as int) =~= s@);
    }
    let mut j: usize = n;
    while j > i && is_ws_char(s_cs[j - 1])
        invariant
            s_cs@ == s@,
            n == s@.len(),
            i <= j <= n,
            trim_start(s@) == s@.subrange(i as int, n as int),
            trim(s@) == trim_end(s@.subrange(i as int, j as int)),
        decreases j,
    {
        proof {
            lemma_trim_end_step(s@, i as int, j as int);
        }
        j = j - 1;
    }
    proof {
        let t = s@.subrange(i as int, j as int);
        if j > i {
            assert(t.last() == s@[j - 1]);
        }
        assert(trim_end(t) == t);
    }
    s.substring_char(i, j)
}

/// Whether `s` is empty after trimming (`s.trim().is_empty()`).
pub fn is_blank(s: &str) -> (r: bool)
    ensures
        r == (trim(s@).len() == 0),
{
    trim_str(s).unicode_len() == 0
}

/// `str::to_ascii_lowercase`.
pub fn lower_str(s: &str) -> (r: String)
    ensures
        r@ == lower(s@),
{
    let s_cs = crate::text::chars_of(s);
    let n = s_cs.len();
    let mut out = String::new();
    let mut i: usize = 0;
    while i < n
        invariant
            s_cs@ == s@,
            n == s@.len(),
            i <= n,
            out@ == lower(s@.subrange(0, i as int)),
        decreases n - i,
    {
        let c = s_cs[i];
        push_char(&mut out, lower_ascii_char(c));
        proof {
            assert(lower(s@.subrange(0, i + 1)) =~= lower(s@.subrange(0, i as int)).push(
                lower_char(c),
            ));
        }
        i = i + 1;
    }
    proof {
        assert(s@.subrange(0, n as int) =~= s@);
    }
    out
}

/// Character-wise equality of two slices.
pub fn str_eq(a: &str, b: &str) -> (r: bool)
    ensures
        r == (a@ == b@),
{
    let a_cs = crate::text::chars_of(a);
    let n = a_cs.len();
    let b_cs = crate::text::chars_of(b);
    let m = b_cs.len();
    if n != m {
        return false;
    }
    let mut i: usize = 0;
    while i < n
        invariant
            b_cs@ == b@,
            a_cs@ == a@,
            n == a@.len(),
            m == b@.len(),
            n == m,
            i <= n,
            forall|k: int| 0 <= k < i ==> a@[k] == b@[k],
        decreases n - i,
    {
        if a_cs[i] != b_cs[i] {
            return false;
        }
        i = i + 1;
    }
    proof {
        assert(a@ =~= b@);
    }
    true
}

/// The characters of a text, in order.
pub fn chars_of(s: &str) -> (r: Vec<char>)
    ensures
        r@ == s@,
{
    broadcast use vstd::string::axiom_spec_iter;

    let mut out: Vec<char> = Vec::new();
    for c in it: s.chars()
        invariant
            out@ == it.seq().take(it.index() as int),
    {
        out.push(c);
    }
    out
}

/// Whether the characters `p` occur in the characters `a` at position `i`.
pub fn occurs_in(a: &Vec<char>, p: &Vec<char>, i: usize) -> (r: bool)
    ensures
        r == occurs_at(a@, p@, i as int),
{
    let n = a.len();
    let m = p.len();
    if i > n || m > n - i {
        return false;
    }
    let mut k: usize = 0;
    while k < m
        invariant
            n == a@.len(),
            m == p@.len(),
            i + m <= n,
            k <= m,
            forall|t: int| 0 <= t < k ==> a@[i + t] == p@[t],
        decreases m - k,
    {
        if a[i + k] != p[k] {
            assert(a@.subrange(i as int, i + m)[k as int] != p@[k as int]);
            return false;
        }
        k = k + 1;
    }
    proof {
        assert(a@.subrange(i as int, i + m) =~= p@);
    }
    true
}

/// Whether `p` occurs in `a` at character position `i`.
pub fn occurs_at_pos(a: &str, p: &str, i: usize) -> (r: bool)
    ensures
        r == occurs_at(a@, p@, i as int),
{
    occurs_in(&chars_of(a), &chars_of(p), i)
}

/// `a.starts_with(p)`.
pub fn starts_with_str(a: &str, p: &str) -> (r: bool)
    ensures
        r == has_prefix(a@, p@),
{
    occurs_at_pos(a, p, 0)
}

/// `a.ends_with(p)`.
pub fn ends_with_str(a: &str, p: &str) -> (r: bool)
    ensures
        r == has_suffix(a@, p@),
{
    let n = a.unicode_len();
    let m = p.unicode_len();
    if m > n {
        return false;
    }
    occurs_at_pos(a, p, n - m)
}

/// `a.contains(p)`.
pub fn contains_str(a: &str, p: &str) -> (r: bool)
    ensures
        r == contains_seq(a@, p@),
{
    let a_cs = chars_of(a);
    let p_cs = chars_of(p);
    let n = a_cs.len();
    let m = p_cs.len();
    if m > n {
        return false;
    }
    if m == 0 {
        assert(a@.subrange(0, 0) =~= p@);
        assert(occurs_at(a@, p@, 0));
        return true;
    }
    let mut i: usize = 0;
    while i <= n - m
        invariant
            a_cs@ == a@,
            p_cs@ == p@,
            n == a@.len(),
            m == p@.len(),
            1 <= m <= n,
            i <= n - m + 1,
            forall|t: int| 0 <= t < i ==> !occurs_at(a@, p@, t),
        decreases n - m + 1 - i,
    {
        if occurs_in(&a_cs, &p_cs, i) {
            return true;
        }
        i = i + 1;
    }
    false
}


/// The pieces of `s` between newlines (what `str::split('\n')` yields).
pub open spec fn split_nl(s: Seq<char>) -> Seq<Seq<char>>
    decreases s.len(),
{
    if s.len() == 0 {
        seq![Seq::<char>::empty()]
    } else {
        let r = split_nl(s.drop_last());
        if s.last() == '\n' {
            r.push(Seq::<char>::empty())
        } else {
            r.update(r.len() - 1, r.last().push(s.last()))
        }
    }
}

/// A line with the carriage return of a `\r\n` ending removed.
pub open spec fn strip_cr(line: Seq<char>) -> Seq<char> {
    if line.len() > 0 && line.last() == '\r' {
        line.drop_last()
    } else {
        line
    }
}

/// The lines of `s` (what `str::lines` yields): pieces between `\n`, a
/// `\r` before each `\n` removed, and no empty last line after a final `\n`.
pub open spec fn lines(s: Seq<char>) -> Seq<Seq<char>> {
    let p = split_nl(s);
    let n = p.len();
    Seq::new(
        if p.last().len() == 0 {
            (n - 1) as nat
        } else {
            n
        },
        |i: int|
            if i < n - 1 {
                strip_cr(p[i])
            } else {
                p[i]
            },
    )
}

/// The lines joined with `sep` in between (what `[String]::join` returns).
pub open spec fn join(ls: Seq<Seq<char>>, sep: Seq<char>) -> Seq<char>
    decreases ls.len(),
{
    if ls.len() == 0 {
        Seq::empty()
    } else if ls.len() == 1 {
        ls[0]
    } else {
        join(ls.drop_last(), sep) + sep + ls.last()
    }
}

proof fn lemma_split_nl_nonempty(s: Seq<char>)
    ensures
        split_nl(s).len() >= 1,
    decreases s.len(),
{
    if s.len() > 0 {
        lemma_split_nl_nonempty(s.drop_last());
    }
}

/// `str::lines`, collected.
pub fn split_lines(s: &str) -> (r: Vec<String>)
    ensures
        r@.map_values(|l: String| l@) == lines(s@),
{
    let s_cs = crate::text::chars_of(s);
    let n = s_cs.len();
    let mut pieces: Vec<String> = Vec::new();
    pieces.push(String::new());
    let mut i: usize = 0;
    proof {
        assert(s@.subrange(0, 0) =~= Seq::<char>::empty());
        assert(pieces@.map_values(|l: String| l@) =~= split_nl(s@.subrange(0, 0)));
    }
    while i < n
        invariant
            s_cs@ == s@,
            n == s@.len(),
            i <= n,
            pieces.len() >= 1,
            pieces@.map_values(|l: String| l@) == split_nl(s@.subrange(0, i as int)),
        decreases n - i,
    {
        let c = s_cs[i];
        let ghost before = pieces@.map_values(|l: String| l@);
        proof {
            let t = s@.subrange(0, i + 1);
            assert(t.drop_last() =~= s@.subrange(0, i as int));
            assert(t.last() == c);
        }
        if c == '\n' {
            pieces.push(String::new());
            proof {
                assert(pieces@.map_values(|l: String| l@) =~= before.push(Seq::<char>::empty()));
            }
        } else {
            let mut last = pieces.pop().unwrap();
            let ghost lv = last@;
            push_char(&mut last, c);
            pieces.push(last);
            proof {
                assert(lv == before.last());
                assert(pieces@.map_values(|l: String| l@) =~= before.update(
                    before.len() - 1,
                    before.last().push(c),
                ));
            }
        }
        i = i + 1;
    }
    proof {
        assert(s@.subrange(0, n as int) =~= s@);
    }
    let ghost p = split_nl(s@);
    let total = pieces.len();
    let count = if pieces[total - 1].as_str().unicode_len() == 0 {
        total - 1
    } else {
        total
    };
    let mut out: Vec<String> = Vec::new();
    let mut k: usize = 0;
    while k < count
        invariant
            s_cs@ == s@,
            count <= total,
            total == pieces.len(),
            total == p.len(),
            p == split_nl(s@),
            p == pieces@.map_values(|l: String| l@),
            k <= count,
            out@.map_values(|l: String| l@) =~= lines(s@).subrange(0, k as int),
            count == lines(s@).len(),
        decreases count - k,
    {
        let piece = pieces[k].as_str();
        let m = piece.unicode_len();
        let line = if k + 1 < total && m > 0 && piece.get_char(m - 1) == '\r' {
            String::from_str(piece.substring_char(0, m - 1))
        } else {
            String::from_str(piece)
        };
        proof {
            assert(p[k as int] == piece@);
            if k + 1 < total && m > 0 && piece@[m - 1] == '\r' {
                assert(piece@.subrange(0, m - 1) =~= piece@.drop_last());
            }
            assert(line@ == lines(s@)[k as int]);
        }
        let ghost ov = out@.map_values(|l: String| l@);
        let ghost lv = line@;
        out.push(line);
        proof {
            assert(out@.map_values(|l: String| l@) =~= ov.push(lv));
            assert(lines(s@).subrange(0, k + 1) =~= lines(s@).subrange(0, k as int).push(lv));
        }
        k = k + 1;
    }
    proof {
        assert(lines(s@).subrange(0, count as int) =~= lines(s@));
    }
    out
}

/// Trimming never lengthens.
pub proof fn lemma_trim_start_len(s: Seq<char>)
    ensures
        trim_start(s).len() <= s.len(),
    decreases s.len(),
{
    if s.len() > 0 && is_ws(s[0]) {
        lemma_trim_start_len(s.drop_first());
    }
}

/// `str::trim_start`.
pub fn trim_start_str(s: &str) -> (r: &str)
    ensures
        r@ == trim_start(s@),
{
    let s_cs = crate::text::chars_of(s);
    let n = s_cs.len();
    let mut i: usize = 0;
    proof {
        assert(s@.subrange(0, n as int) =~= s@);
    }
    while i < n && is_ws_char(s_cs[i])
        invariant
            s_cs@ == s@,
            n == s@.len(),
            i <= n,
            trim_start(s@) == trim_start(s@.subrange(i as int, n as int)),
        decreases n - i,
    {
        proof {
            lemma_trim_start_step(s@, i as int);
        }
        i = i + 1;
    }
    proof {
        let t = s@.subrange(i as int, n as int);
        if i < n {
            assert(t[0] == s@[i as int]);
        }
    }
    s.substring_char(i, n)
}

/// Length of the run of non-whitespace characters `s` starts with.
pub open spec fn word_len(s: Seq<char>) -> nat
    decreases s.len(),
{
    if s.len() > 0 && !is_ws(s[0]) {
        1 + word_len(s.drop_first())
    } else {
        0
    }
}

/// The first whitespace-separated word of `s` and the text after it: what
/// `split_whitespace` yields first, and where it goes on from.
pub open spec fn first_word(s: Seq<char>) -> Option<(Seq<char>, Seq<char>)> {
    let t = trim_start(s);
    if t.len() == 0 {
        None
    } else {
        Some((t.subrange(0, word_len(t) as int), t.subrange(word_len(t) as int, t.len() as int)))
    }
}

/// The first word of `s` and the rest after it.
pub fn first_word_str<'a>(s: &'a str) -> (r: Option<(&'a str, &'a str)>)
    ensures
        match r {
            Some((w, rest)) => first_word(s@) == Some((w@, rest@)),
            None => first_word(s@) is None,
        },
{
    let t = trim_start_str(s);
    let t_cs = crate::text::chars_of(t);
    let n = t_cs.len();
    if n == 0 {
        return None;
    }
    let mut i: usize = 0;
    proof {
        assert(t@.subrange(0, n as int) =~= t@);
    }
    while i < n && !is_ws_char(t_cs[i])
        invariant
            t_cs@ == t@,
            n == t@.len(),
            i <= n,
            word_len(t@) == i + word_len(t@.subrange(i as int, n as int)),
        decreases n - i,
    {
        proof {
            let u = t@.subrange(i as int, n as int);
            assert(u.drop_first() =~= t@.subrange(i + 1, n as int));
            assert(u[0] == t@[i as int]);
        }
        i = i + 1;
    }
    proof {
        let u = t@.subrange(i as int, n as int);
        if i < n {
            assert(u[0] == t@[i as int]);
        }
        assert(word_len(u) == 0);
    }
    Some((t.substring_char(0, i), t.substring_char(i, n)))
}

/// `s` without every leading `c` (`str::trim_start_matches` with a
/// character).
pub open spec fn strip_leading(s: Seq<char>, c: char) -> Seq<char>
    decreases s.len(),
{
    if s.len() > 0 && s[0] == c {
        strip_leading(s.drop_first(), c)
    } else {
        s
    }
}

/// `s.trim_start_matches(c)`.
pub fn trim_start_matches_char(s: &str, c: char) -> (r: &str)
    ensures
        r@ == strip_leading(s@, c),
{
    let s_cs = crate::text::chars_of(s);
    let n = s_cs.len();
    let mut i: usize = 0;
    proof {
        assert(s@.subrange(0, n as int) =~= s@);
    }
    while i < n && s_cs[i] == c
        invariant
            s_cs@ == s@,
            n == s@.len(),
            i <= n,
            strip_leading(s@, c) == strip_leading(s@.subrange(i as int, n as int), c),
        decreases n - i,
    {
        proof {
            let u = s@.subrange(i as int, n as int);
            assert(u.drop_first() =~= s@.subrange(i + 1, n as int));
            assert(u[0] == s@[i as int]);
        }
        i = i + 1;
    }
    proof {
        let u = s@.subrange(i as int, n as int);
        if i < n {
            assert(u[0] == s@[i as int]);
        }
    }
    s.substring_char(i, n)
}

/// `s.strip_prefix(p)`.
pub fn strip_prefix_str<'a>(s: &'a str, p: &str) -> (r: Option<&'a str>)
    ensures
        has_prefix(s@, p@) ==> (r matches Some(x) && x@ == s@.subrange(p@.len() as int, s@.len() as int)),
        !has_prefix(s@, p@) ==> r is None,
{
    if starts_with_str(s, p) {
        Some(s.substring_char(p.unicode_len(), s.unicode_len()))
    } else {
        None
    }
}

/// `s.strip_suffix(p)`.
pub fn strip_suffix_str<'a>(s: &'a str, p: &str) -> (r: Option<&'a str>)
    ensures
        has_suffix(s@, p@) ==> (r matches Some(x) && x@ == s@.subrange(0, s@.len() - p@.len())),
        !has_suffix(s@, p@) ==> r is None,
{
    if ends_with_str(s, p) {
        Some(s.substring_char(0, s.unicode_len() - p.unicode_len()))
    } else {
        None
    }
}

/// `lines.join(sep)`.
pub fn join_strings(ls: &Vec<String>, sep: &str) -> (r: String)
    ensures
        r@ == join(ls@.map_values(|l: String| l@), sep@),
{
    let ghost v = ls@.map_values(|l: String| l@);
    let mut out = String::new();
    let mut i: usize = 0;
    while i < ls.len()
        invariant
            i <= ls.len(),
            v == ls@.map_values(|l: String| l@),
            out@ == join(v.subrange(0, i as int), sep@),
        decreases ls.len() - i,
    {
        if i > 0 {
            out.append(sep);
        }
        out.append(ls[i].as_str());
        proof {
            let t = v.subrange(0, i + 1);
            assert(t.drop_last() =~= v.subrange(0, i as int));
            if i == 0 {
                assert(join(v.subrange(0, 0), sep@) == Seq::<char>::empty());
                assert(out@ =~= t[0]);
            }
        }
        i = i + 1;
    }
    proof {
        assert(v.subrange(0, ls.len() as int) =~= v);
    }
    out
}


/// `i` is the first position at which `p` occurs in `a`.
pub open spec fn first_at(a: Seq<char>, p: Seq<char>, i: int) -> bool {
    occurs_at(a, p, i) && forall|j: int| 0 <= j < i ==> !#[trigger] occurs_at(a, p, j)
}

/// Position of the first occurrence of `p` in `a`, if any.
pub open spec fn first_occurrence(a: Seq<char>, p: Seq<char>) -> Option<int> {
    if exists|i: int| first_at(a, p, i) {
        Some(choose|i: int| first_at(a, p, i))
    } else {
        None
    }
}

proof fn lemma_first_unique(a: Seq<char>, p: Seq<char>, i: int)
    requires
        first_at(a, p, i),
    ensures
        first_occurrence(a, p) == Some(i),
{
    let c = choose|c: int| first_at(a, p, c);
    assert(first_at(a, p, c));
    if c < i {
        assert(!occurs_at(a, p, c));
    } else if c > i {
        assert(!occurs_at(a, p, i));
    }
}

/// `a.split_once(p)`: the text before and after the first occurrence of `p`.
pub open spec fn split_once(a: Seq<char>, p: Seq<char>) -> Option<(Seq<char>, Seq<char>)> {
    match first_occurrence(a, p) {
        Some(i) => Some((a.subrange(0, i), a.subrange(i + p.len(), a.len() as int))),
        None => None,
    }
}

/// Position of the first occurrence of `p` in `a` (`str::find`, counted in
/// characters).
pub fn find_str(a: &str, p: &str) -> (r: Option<usize>)
    ensures
        match r {
            Some(i) => first_occurrence(a@, p@) == Some(i as int) && i + p@.len() <= a@.len(),
            None => first_occurrence(a@, p@) is None && !contains_seq(a@, p@),
        },
{
    let a_cs = chars_of(a);
    let p_cs = chars_of(p);
    let n = a_cs.len();
    let m = p_cs.len();
    if m > n {
        return None;
    }
    let mut i: usize = 0;
    loop
        invariant
            a_cs@ == a@,
            p_cs@ == p@,
            n == a@.len(),
            m == p@.len(),
            m <= n,
            i <= n - m,
            forall|t: int| 0 <= t < i ==> !#[trigger] occurs_at(a@, p@, t),
        ensures
            forall|t: int| 0 <= t <= n - m ==> !#[trigger] occurs_at(a@, p@, t),
        decreases n - m - i,
    {
        if occurs_in(&a_cs, &p_cs, i) {
            proof {
                assert(first_at(a@, p@, i as int));
                lemma_first_unique(a@, p@, i as int);
            }
            return Some(i);
        }
        if i == n - m {
            break;
        }
        i = i + 1;
    }
    proof {
        assert forall|t: int| !occurs_at(a@, p@, t) by {
            if 0 <= t <= n - m {
            }
        }
    }
    None
}

/// `a.split_once(p)`.
pub fn split_once_str<'a>(a: &'a str, p: &str) -> (r: Option<(&'a str, &'a str)>)
    ensures
        match r {
            Some((x, y)) => split_once(a@, p@) == Some((x@, y@)),
            None => split_once(a@, p@) is None,
        },
{
    match find_str(a, p) {
        None => None,
        Some(i) => {
            let m = p.unicode_len();
            let n = a.unicode_len();
            Some((a.substring_char(0, i), a.substring_char(i + m, n)))
        },
    }
}

/// `i` is the last position at which `p` occurs in `a`.
pub open spec fn last_at(a: Seq<char>, p: Seq<char>, i: int) -> bool {
    occurs_at(a, p, i) && forall|j: int| i < j ==> !#[trigger] occurs_at(a, p, j)
}

/// Position of the last occurrence of `p` in `a`, if any.
pub open spec fn last_occurrence(a: Seq<char>, p: Seq<char>) -> Option<int> {
    if exists|i: int| last_at(a, p, i) {
        Some(choose|i: int| last_at(a, p, i))
    } else {
        None
    }
}

proof fn lemma_last_unique(a: Seq<char>, p: Seq<char>, i: int)
    requires
        last_at(a, p, i),
    ensures
        last_occurrence(a, p) == Some(i),
{
    let c = choose|c: int| last_at(a, p, c);
    assert(last_at(a, p, c));
    if c < i {
        assert(!occurs_at(a, p, i));
    } else if c > i {
        assert(!occurs_at(a, p, c));
    }
}

/// Position of the last occurrence of `p` in `a` (`str::rfind`, counted in
/// characters).
pub fn rfind_str(a: &str, p: &str) -> (r: Option<usize>)
    ensures
        match r {
            Some(i) => last_occurrence(a@, p@) == Some(i as int) && i + p@.len() <= a@.len(),
            None => last_occurrence(a@, p@) is None && !contains_seq(a@, p@),
        },
{
    let a_cs = chars_of(a);
    let p_cs = chars_of(p);
    let n = a_cs.len();
    let m = p_cs.len();
    if m > n {
        return None;
    }
    let mut i: usize = n - m;
    loop
        invariant
            a_cs@ == a@,
            p_cs@ == p@,
            n == a@.len(),
            m == p@.len(),
            m <= n,
            i <= n - m,
            forall|t: int| i < t ==> !#[trigger] occurs_at(a@, p@, t),
        ensures
            forall|t: int| 0 <= t ==> !#[trigger] occurs_at(a@, p@, t),
        decreases i,
    {
        if occurs_in(&a_cs, &p_cs, i) {
            proof {
                assert(last_at(a@, p@, i as int));
                lemma_last_unique(a@, p@, i as int);
            }
            return Some(i);
        }
        if i == 0 {
            break;
        }
        i = i - 1;
    }
    None
}

/// `a.rsplit_once(p)`: the text before and after the last occurrence of `p`.
pub open spec fn rsplit_once(a: Seq<char>, p: Seq<char>) -> Option<(Seq<char>, Seq<char>)> {
    match last_occurrence(a, p) {
        Some(i) => Some((a.subrange(0, i), a.subrange(i + p.len(), a.len() as int))),
        None => None,
    }
}

/// `a.rsplit_once(p)`.
pub fn rsplit_once_str<'a>(a: &'a str, p: &str) -> (r: Option<(&'a str, &'a str)>)
    ensures
        match r {
            Some((x, y)) => rsplit_once(a@, p@) == Some((x@, y@)),
            None => rsplit_once(a@, p@) is None,
        },
{
    match rfind_str(a, p) {
        None => None,
        Some(i) => {
            let m = p.unicode_len();
            let n = a.unicode_len();
            Some((a.substring_char(0, i), a.substring_char(i + m, n)))
        },
    }
}

/// The non-empty pieces of `s` between slashes, in order.
pub open spec fn slash_segments(s: Seq<char>) -> Seq<Seq<char>> {
    segments_from(s, Seq::empty())
}

/// The non-empty `/`-separated segments of `rest`, where `current` is the
/// segment read so far.
pub open spec fn segments_from(rest: Seq<char>, current: Seq<char>) -> Seq<Seq<char>>
    decreases rest.len(),
{
    if rest.len() == 0 {
        if current.len() > 0 {
            seq![current]
        } else {
            Seq::empty()
        }
    } else if rest[0] == '/' {
        (if current.len() > 0 {
            seq![current]
        } else {
            Seq::empty()
        }) + segments_from(rest.drop_first(), Seq::empty())
    } else {
        segments_from(rest.drop_first(), current.push(rest[0]))
    }
}

/// The non-empty pieces of a text between slashes, in order.
pub fn split_slash_segments(topic: &str) -> (r: Vec<String>)
    ensures
        r@.map_values(|s: String| s@) == slash_segments(topic@),
{
    let topic_cs = crate::text::chars_of(topic);
    let n = topic_cs.len();
    let mut out: Vec<String> = Vec::new();
    let mut cur = String::new();
    let mut i: usize = 0;
    proof {
        assert(topic@.subrange(0, n as int) =~= topic@);
        assert(cur@ =~= Seq::<char>::empty());
    }
    while i < n
        invariant
            topic_cs@ == topic@,
            n == topic@.len(),
            i <= n,
            slash_segments(topic@) == out@.map_values(|s: String| s@) + segments_from(
                topic@.subrange(i as int, n as int),
                cur@,
            ),
        decreases n - i,
    {
        let c = topic_cs[i];
        proof {
            let t = topic@.subrange(i as int, n as int);
            assert(t.drop_first() =~= topic@.subrange(i + 1, n as int));
            assert(t[0] == c);
        }
        let ghost before = out@.map_values(|s: String| s@);
        let ghost cur_before = cur@;
        if c == '/' {
            if cur.unicode_len() > 0 {
                out.push(cur);
                proof {
                    assert(out@.map_values(|s: String| s@) =~= before.push(cur_before));
                    assert(before + (seq![cur_before] + segments_from(topic@.subrange(i + 1, n as int), Seq::empty()))
                        =~= before.push(cur_before) + segments_from(topic@.subrange(i + 1, n as int), Seq::empty()));
                }
            } else {
                proof {
                    assert(Seq::<Seq<char>>::empty() + segments_from(topic@.subrange(i + 1, n as int), Seq::empty())
                        =~= segments_from(topic@.subrange(i + 1, n as int), Seq::empty()));
                }
            }
            cur = String::new();
            proof {
                assert(cur@ =~= Seq::<char>::empty());
            }
        } else {
            push_char(&mut cur, c);
        }
        i = i + 1;
    }
    if cur.unicode_len() > 0 {
        let ghost before = out@.map_values(|s: String| s@);
        let ghost last = cur@;
        out.push(cur);
        proof {
            assert(out@.map_values(|s: String| s@) =~= before + seq![last]);
        }
    } else {
        proof {
            assert(out@.map_values(|s: String| s@) + Seq::<Seq<char>>::empty() =~= out@.map_values(|s: String| s@));
        }
    }
    out
}

/// `a` sorts strictly before `b`, character by character, a proper prefix
/// first (the order of `str`: UTF-8 bytes compare as the characters they
/// encode).
pub open spec fn seq_lt(a: Seq<char>, b: Seq<char>) -> bool
    decreases a.len(),
{
    if a.len() == 0 {
        b.len() > 0
    } else if b.len() == 0 {
        false
    } else if (a[0] as int) < (b[0] as int) {
        true
    } else if a[0] == b[0] {
        seq_lt(a.drop_first(), b.drop_first())
    } else {
        false
    }
}

/// No text sorts before itself.
pub proof fn lemma_seq_lt_irreflexive(a: Seq<char>)
    ensures
        !seq_lt(a, a),
    decreases a.len(),
{
    if a.len() > 0 {
        lemma_seq_lt_irreflexive(a.drop_first());
    }
}

/// The order of texts is transitive.
pub proof fn lemma_seq_lt_transitive(a: Seq<char>, b: Seq<char>, c: Seq<char>)
    requires
        seq_lt(a, b),
        seq_lt(b, c),
    ensures
        seq_lt(a, c),
    decreases a.len(),
{
    if a.len() > 0 && b.len() > 0 && c.len() > 0 {
        if a[0] == b[0] && b[0] == c[0] {
            lemma_seq_lt_transitive(a.drop_first(), b.drop_first(), c.drop_first());
        }
    }
}

/// Of two different texts, one sorts before the other.
pub proof fn lemma_seq_lt_total(a: Seq<char>, b: Seq<char>)
    ensures
        seq_lt(a, b) || seq_lt(b, a) || a == b,
    decreases a.len(),
{
    if a.len() > 0 && b.len() > 0 {
        if a[0] == b[0] {
            lemma_seq_lt_total(a.drop_first(), b.drop_first());
            if a.drop_first() == b.drop_first() {
                assert(a =~= seq![a[0]] + a.drop_first());
                assert(b =~= seq![b[0]] + b.drop_first());
            }
        } else {
            assert((a[0] as int) != (b[0] as int));
        }
    } else if a.len() == 0 && b.len() == 0 {
        assert(a =~= b);
    }
}

/// Whether `a` sorts strictly before `b`.
pub fn str_lt(a: &str, b: &str) -> (r: bool)
    ensures
        r == seq_lt(a@, b@),
{
    let a_cs = crate::text::chars_of(a);
    let n = a_cs.len();
    let b_cs = crate::text::chars_of(b);
    let m = b_cs.len();
    let mut i: usize = 0;
    proof {
        assert(a@.subrange(0, n as int) =~= a@);
        assert(b@.subrange(0, m as int) =~= b@);
    }
    while i < n && i < m
        invariant
            b_cs@ == b@,
            a_cs@ == a@,
            n == a@.len(),
            m == b@.len(),
            i <= n,
            i <= m,
            seq_lt(a@, b@) == seq_lt(a@.subrange(i as int, n as int), b@.subrange(i as int, m as int)),
        decreases n - i,
    {
        let x = a_cs[i];
        let y = b_cs[i];
        let ghost sa = a@.subrange(i as int, n as int);
        let ghost sb = b@.subrange(i as int, m as int);
        proof {
            assert(sa[0] == x && sb[0] == y);
            assert(sa.drop_first() =~= a@.subrange(i + 1, n as int));
            assert(sb.drop_first() =~= b@.subrange(i + 1, m as int));
        }
        if x < y {
            proof {
                assert((sa[0] as int) < (sb[0] as int));
            }
            return true;
        }
        if x != y {
            proof {
                assert(!((sa[0] as int) < (sb[0] as int)) && sa[0] != sb[0]);
            }
            return false;
        }
        i = i + 1;
    }
    i < m
}

/// Value of a string of decimal digits.
pub open spec fn digits_value(s: Seq<char>) -> int
    decreases s.len(),
{
    if s.len() == 0 {
        0
    } else {
        digits_value(s.drop_last()) * 10 + (s.last() as int - '0' as int)
    }
}

/// Every character is an ASCII digit.
pub open spec fn all_digits(s: Seq<char>) -> bool {
    forall|i: int| 0 <= i < s.len() ==> '0' <= #[trigger] s[i] && s[i] <= '9'
}

/// What `str::parse::<i64>` yields: an optional sign, then at least one
/// ASCII digit, the value in range.
pub open spec fn parse_i64_spec(s: Seq<char>) -> Option<i64> {
    let neg = s.len() > 0 && s[0] == '-';
    let ds = if s.len() > 0 && (s[0] == '-' || s[0] == '+') {
        s.drop_first()
    } else {
        s
    };
    let v = if neg {
        -digits_value(ds)
    } else {
        digits_value(ds)
    };
    if ds.len() == 0 || !all_digits(ds) || v < i64::MIN || v > i64::MAX {
        None
    } else {
        Some(v as i64)
    }
}

proof fn lemma_digits_grow(s: Seq<char>, k: int)
    requires
        all_digits(s),
        0 <= k <= s.len(),
    ensures
        digits_value(s.subrange(0, k)) <= digits_value(s),
        0 <= digits_value(s.subrange(0, k)),
    decreases s.len() - k,
{
    if k < s.len() {
        let t = s.subrange(0, k + 1);
        assert(t.drop_last() =~= s.subrange(0, k));
        assert('0' <= t.last() <= '9');
        lemma_digits_grow(s, k + 1);
    } else {
        assert(s.subrange(0, k) =~= s);
        lemma_digits_nonneg(s);
    }
}

proof fn lemma_digits_nonneg(s: Seq<char>)
    requires
        all_digits(s),
    ensures
        0 <= digits_value(s),
    decreases s.len(),
{
    if s.len() > 0 {
        assert(all_digits(s.drop_last()));
        assert('0' <= s.last());
        lemma_digits_nonneg(s.drop_last());
    }
}

/// `s.parse::<i64>().ok()`.
pub fn parse_i64(s: &str) -> (r: Option<i64>)
    ensures
        r == parse_i64_spec(s@),
{
    let s_cs = crate::text::chars_of(s);
    let n = s_cs.len();
    let neg = n > 0 && s_cs[0] == '-';
    let start: usize = if n > 0 && (s_cs[0] == '-' || s_cs[0] == '+') {
        1
    } else {
        0
    };
    let ghost ds = if s@.len() > 0 && (s@[0] == '-' || s@[0] == '+') {
        s@.drop_first()
    } else {
        s@
    };
    proof {
        assert(ds =~= s@.subrange(start as int, n as int));
    }
    if start == n {
        return None;
    }
    let mut acc: i128 = 0;
    let mut i: usize = start;
    while i < n
        invariant
            s_cs@ == s@,
            n == s@.len(),
            start <= i <= n,
            ds =~= s@.subrange(start as int, n as int),
            ds == (if s@.len() > 0 && (s@[0] == '-' || s@[0] == '+') {
                s@.drop_first()
            } else {
                s@
            }),
            all_digits(ds.subrange(0, i - start)),
            acc == digits_value(ds.subrange(0, i - start)),
            0 <= acc <= 9223372036854775808,
        decreases n - i,
    {
        let c = s_cs[i];
        if !('0' <= c && c <= '9') {
            proof {
                assert(ds[i - start] == c);
                assert(!all_digits(ds));
            }
            return None;
        }
        let d: i128 = ((c as u8) - 48) as i128;
        let next = acc * 10 + d;
        proof {
            let t = ds.subrange(0, i - start + 1);
            assert(t.drop_last() =~= ds.subrange(0, i - start));
            assert(t.last() == c);
            assert(d == c as int - '0' as int);
            assert(all_digits(t));
            assert(digits_value(t) == next);
        }
        if next > 9223372036854775808 {
            proof {
                if all_digits(ds) {
                    lemma_digits_grow(ds, i - start + 1);
                    assert(digits_value(ds) > 9223372036854775808);
                }
            }
            return None;
        }
        acc = next;
        i = i + 1;
    }
    proof {
        assert(ds.subrange(0, n - start) =~= ds);
    }
    if neg {
        let v: i128 = 0 - acc;
        Some(v as i64)
    } else {
        if acc > 9223372036854775807 {
            return None;
        }
        Some(acc as i64)
    }
}

/// What `str::parse` yields for an unsigned type whose largest value is
/// `max`: an optional `+`, then at least one ASCII digit, the value at most
/// `max`.
pub open spec fn parse_uint_spec(s: Seq<char>, max: int) -> Option<int> {
    let ds = if s.len() > 0 && s[0] == '+' {
        s.drop_first()
    } else {
        s
    };
    if ds.len() == 0 || !all_digits(ds) || digits_value(ds) > max {
        None
    } else {
        Some(digits_value(ds))
    }
}

/// `s.parse::<u64>().ok()`.
pub fn parse_u64(s: &str) -> (r: Option<u64>)
    ensures
        match r {
            Some(v) => parse_uint_spec(s@, u64::MAX as int) == Some(v as int),
            None => parse_uint_spec(s@, u64::MAX as int) is None,
        },
{
    let s_cs = crate::text::chars_of(s);
    let n = s_cs.len();
    let start: usize = if n > 0 && s_cs[0] == '+' {
        1
    } else {
        0
    };
    let ghost ds = if s@.len() > 0 && s@[0] == '+' {
        s@.drop_first()
    } else {
        s@
    };
    proof {
        assert(ds =~= s@.subrange(start as int, n as int));
    }
    if start == n {
        return None;
    }
    let mut acc: u128 = 0;
    let mut i: usize = start;
    while i < n
        invariant
            s_cs@ == s@,
            n == s@.len(),
            start <= i <= n,
            ds =~= s@.subrange(start as int, n as int),
            ds == (if s@.len() > 0 && s@[0] == '+' {
                s@.drop_first()
            } else {
                s@
            }),
            all_digits(ds.subrange(0, i - start)),
            acc == digits_value(ds.subrange(0, i - start)),
            acc <= u64::MAX,
        decreases n - i,
    {
        let c = s_cs[i];
        if !('0' <= c && c <= '9') {
            proof {
                assert(ds[i - start] == c);
                assert(!all_digits(ds));
            }
            return None;
        }
        let d: u128 = ((c as u8) - 48) as u128;
        let next = acc * 10 + d;
        proof {
            let t = ds.subrange(0, i - start + 1);
            assert(t.drop_last() =~= ds.subrange(0, i - start));
            assert(t.last() == c);
            assert(d == c as int - '0' as int);
            assert(all_digits(t));
            assert(digits_value(t) == next);
        }
        if next > 18446744073709551615 {
            proof {
                if all_digits(ds) {
                    lemma_digits_grow(ds, i - start + 1);
                }
            }
            return None;
        }
        acc = next;
        i = i + 1;
    }
    proof {
        assert(ds.subrange(0, n - start) =~= ds);
    }
    Some(acc as u64)
}

/// `s.parse::<usize>().ok()`.
pub fn parse_usize(s: &str) -> (r: Option<usize>)
    ensures
        match r {
            Some(v) => parse_uint_spec(s@, usize::MAX as int) == Some(v as int),
            None => parse_uint_spec(s@, usize::MAX as int) is None,
        },
{
    match parse_u64(s) {
        Some(v) => {
            if v as u128 <= usize::MAX as u128 {
                Some(v as usize)
            } else {
                None
            }
        },
        None => None,
    }
}

/// Decimal digits of `n`.
pub open spec fn decimal(n: nat) -> Seq<char>
    decreases n,
{
    if n < 10 {
        seq![(('0' as u32) + n) as char]
    } else {
        decimal(n / 10).push(((('0' as u32) + (n % 10)) as char))
    }
}

/// `n.to_string()` for an unsigned integer.
pub fn usize_to_decimal(n: usize) -> (r: String)
    ensures
        r@ == decimal(n as nat),
    decreases n,
{
    if n < 10 {
        let mut s = String::new();
        let d: u8 = (n as u8) + 48;
        push_char(&mut s, d as char);
        s
    } else {
        let mut s = usize_to_decimal(n / 10);
        let d: u8 = ((n % 10) as u8) + 48;
        push_char(&mut s, d as char);
        s
    }
}

/// Decimal text of a signed integer (`i64::to_string`).
pub open spec fn signed_decimal(n: i64) -> Seq<char> {
    if n < 0 {
        seq!['-'] + decimal((-(n as int)) as nat)
    } else {
        decimal(n as nat)
    }
}

/// `n.to_string()` for `u64`.
pub fn u64_to_decimal(n: u64) -> (r: String)
    ensures
        r@ == decimal(n as nat),
    decreases n,
{
    if n < 10 {
        let mut s = String::new();
        let d: u8 = (n as u8) + 48;
        push_char(&mut s, d as char);
        s
    } else {
        let mut s = u64_to_decimal(n / 10);
        let d: u8 = ((n % 10) as u8) + 48;
        push_char(&mut s, d as char);
        s
    }
}

/// `n.to_string()` for `i64`.
pub fn i64_to_decimal(n: i64) -> (r: String)
    ensures
        r@ == signed_decimal(n),
{
    if n < 0 {
        let m: u64 = (0i128 - (n as i128)) as u64;
        let mut s = String::new();
        push_char(&mut s, '-');
        let digits = u64_to_decimal(m);
        s.concat(digits.as_str())
    } else {
        u64_to_decimal(n as u64)
    }
}

/// The texts as plain values.
pub open spec fn text_views(xs: Seq<String>) -> Seq<Seq<char>> {
    xs.map_values(|x: String| x@)
}

/// A copy of a list of texts.
pub fn copy_texts(xs: &Vec<String>) -> (r: Vec<String>)
    ensures
        text_views(r@) == text_views(xs@),
{
    let mut out: Vec<String> = Vec::new();
    let mut i: usize = 0;
    while i < xs.len()
        invariant
            i <= xs@.len(),
            text_views(out@) == text_views(xs@.subrange(0, i as int)),
        decreases xs@.len() - i,
    {
        let ghost before = out@;
        out.push(xs[i].clone());
        proof {
            assert(text_views(out@) =~= text_views(before).push(xs@[i as int]@));
            assert(text_views(xs@.subrange(0, i + 1)) =~= text_views(xs@.subrange(0, i as int)).push(xs@[i as int]@));
        }
        i = i + 1;
    }
    proof {
        assert(xs@.subrange(0, xs@.len() as int) =~= xs@);
    }
    out
}

} // verus!
