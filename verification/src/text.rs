use vstd::prelude::*;
use vstd::string::*;

verus! {

// ---------------------------------------------------------------------------
// Character classes
// ---------------------------------------------------------------------------

/// The characters that `str::trim` removes: the Unicode `White_Space` set.
pub open spec fn spec_is_space(c: char) -> bool {
    c == ' ' || c == '\u{9}' || c == '\u{a}' || c == '\u{b}' || c == '\u{c}' || c == '\u{d}'
        || c == '\u{85}' || c == '\u{a0}' || c == '\u{1680}' || c == '\u{2000}' || c == '\u{2001}'
        || c == '\u{2002}' || c == '\u{2003}' || c == '\u{2004}' || c == '\u{2005}'
        || c == '\u{2006}' || c == '\u{2007}' || c == '\u{2008}' || c == '\u{2009}'
        || c == '\u{200a}' || c == '\u{2028}' || c == '\u{2029}' || c == '\u{202f}'
        || c == '\u{205f}' || c == '\u{3000}'
}

pub fn is_space(c: char) -> (r: bool)
    ensures
        r == spec_is_space(c),
{
    c == ' ' || c == '\u{9}' || c == '\u{a}' || c == '\u{b}' || c == '\u{c}' || c == '\u{d}'
        || c == '\u{85}' || c == '\u{a0}' || c == '\u{1680}' || c == '\u{2000}' || c == '\u{2001}'
        || c == '\u{2002}' || c == '\u{2003}' || c == '\u{2004}' || c == '\u{2005}'
        || c == '\u{2006}' || c == '\u{2007}' || c == '\u{2008}' || c == '\u{2009}'
        || c == '\u{200a}' || c == '\u{2028}' || c == '\u{2029}' || c == '\u{202f}'
        || c == '\u{205f}' || c == '\u{3000}'
}

// ---------------------------------------------------------------------------
// Trimming
// ---------------------------------------------------------------------------

pub open spec fn spec_trim_start(s: Seq<char>) -> Seq<char>
    decreases s.len(),
{
    if s.len() > 0 && spec_is_space(s[0]) {
        spec_trim_start(s.skip(1))
    } else {
        s
    }
}

pub open spec fn spec_trim_end(s: Seq<char>) -> Seq<char>
    decreases s.len(),
{
    if s.len() > 0 && spec_is_space(s[s.len() - 1]) {
        spec_trim_end(s.take(s.len() - 1))
    } else {
        s
    }
}

/// What `str::trim` keeps: the input without leading and trailing white space.
pub open spec fn spec_trim(s: Seq<char>) -> Seq<char> {
    spec_trim_end(spec_trim_start(s))
}

proof fn lemma_trim_start_skip(s: Seq<char>, i: int)
    requires
        0 <= i <= s.len(),
        forall|k: int| 0 <= k < i ==> spec_is_space(s[k]),
        i == s.len() || !spec_is_space(s[i]),
    ensures
        spec_trim_start(s) == s.skip(i),
    decreases i,
{
    if i == 0 {
        assert(s.skip(0) =~= s);
    } else {
        assert(spec_is_space(s[0]));
        lemma_trim_start_skip(s.skip(1), i - 1);
        assert(s.skip(1).skip(i - 1) =~= s.skip(i));
    }
}

proof fn lemma_trim_end_take(s: Seq<char>, j: int)
    requires
        0 <= j <= s.len(),
        forall|k: int| j <= k < s.len() ==> spec_is_space(s[k]),
        j == 0 || !spec_is_space(s[j - 1]),
    ensures
        spec_trim_end(s) == s.take(j),
    decreases s.len() - j,
{
    if j == s.len() {
        assert(s.take(j) =~= s);
        if s.len() > 0 {
            assert(!spec_is_space(s[s.len() - 1]));
        }
    } else {
        assert(spec_is_space(s[s.len() - 1]));
        lemma_trim_end_take(s.take(s.len() - 1), j);
        assert(s.take(s.len() - 1).take(j) =~= s.take(j));
    }
}

/// `str::trim`, proved against `spec_trim`.
pub fn trim_str<'a>(s: &'a str) -> (r: &'a str)
    ensures
        r@ == spec_trim(s@),
{
    let n = s.unicode_len();
    let mut i: usize = 0;
    while i < n && is_space(s.get_char(i))
        invariant
            0 <= i <= n,
            n == s@.len(),
            forall|k: int| 0 <= k < i ==> spec_is_space(s@[k]),
        decreases n - i,
    {
        i = i + 1;
    }
    let mut j: usize = n;
    while j > i && is_space(s.get_char(j - 1))
        invariant
            i <= j <= n,
            n == s@.len(),
            forall|k: int| j <= k < n ==> spec_is_space(s@[k]),
        decreases j,
    {
        j = j - 1;
    }
    proof {
        lemma_trim_start_skip(s@, i as int);
        if j == i {
            lemma_trim_end_take(s@.skip(i as int), 0);
        } else {
            assert(!spec_is_space(s@[j - 1]));
            assert(forall|k: int| j <= k < n ==> spec_is_space(#[trigger] s@.skip(i as int)[k - i]));
            assert(forall|k: int|
                j - i <= k < s@.skip(i as int).len() ==> spec_is_space(
                    #[trigger] s@.skip(i as int)[k],
                ));
            lemma_trim_end_take(s@.skip(i as int), j - i);
        }
        assert(s@.skip(i as int).take(j - i) =~= s@.subrange(i as int, j as int));
    }
    s.substring_char(i, j)
}

// ---------------------------------------------------------------------------
// Searching
// ---------------------------------------------------------------------------

/// The index of the first occurrence of `c` in `s`, if any.
pub open spec fn spec_first_ix(s: Seq<char>, c: char) -> Option<int>
    decreases s.len(),
{
    if s.len() == 0 {
        None
    } else if s[0] == c {
        Some(0int)
    } else {
        match spec_first_ix(s.skip(1), c) {
            Some(i) => Some(i + 1),
            None => None,
        }
    }
}

pub proof fn lemma_first_ix_found(s: Seq<char>, c: char, i: int)
    requires
        0 <= i < s.len(),
        s[i] == c,
        forall|k: int| 0 <= k < i ==> s[k] != c,
    ensures
        spec_first_ix(s, c) == Some(i),
    decreases i,
{
    if i == 0 {
    } else {
        lemma_first_ix_found(s.skip(1), c, i - 1);
    }
}

pub proof fn lemma_first_ix_none(s: Seq<char>, c: char)
    requires
        forall|k: int| 0 <= k < s.len() ==> s[k] != c,
    ensures
        spec_first_ix(s, c) == None::<int>,
    decreases s.len(),
{
    if s.len() > 0 {
        lemma_first_ix_none(s.skip(1), c);
    }
}

/// The first index of `c` in `s`, as `str::find` reports it for a
/// single-character pattern (counted in characters here, not bytes).
pub fn find_char(s: &str, c: char) -> (r: Option<usize>)
    ensures
        match r {
            Some(i) => 0 <= i < s@.len() && spec_first_ix(s@, c) == Some(i as int),
            None => spec_first_ix(s@, c) == None::<int>,
        },
{
    let n = s.unicode_len();
    let mut i: usize = 0;
    while i < n
        invariant
            0 <= i <= n,
            n == s@.len(),
            forall|k: int| 0 <= k < i ==> s@[k] != c,
        decreases n - i,
    {
        if s.get_char(i) == c {
            proof {
                lemma_first_ix_found(s@, c, i as int);
            }
            return Some(i);
        }
        i = i + 1;
    }
    proof {
        lemma_first_ix_none(s@, c);
    }
    None
}

/// `p` occurs in `s` starting at `i`.
pub open spec fn spec_match_at(s: Seq<char>, p: Seq<char>, i: int) -> bool {
    0 <= i && i + p.len() <= s.len() && s.subrange(i, i + p.len()) == p
}

/// `p` occurs somewhere in `s` (`str::contains`).
pub open spec fn spec_has_sub(s: Seq<char>, p: Seq<char>) -> bool {
    exists|i: int| spec_match_at(s, p, i)
}

/// `s` starts with `p` (`str::starts_with`).
pub open spec fn spec_starts_with(s: Seq<char>, p: Seq<char>) -> bool {
    p.len() <= s.len() && s.subrange(0, p.len() as int) == p
}

fn match_at(s: &str, p: &str, i: usize, ns: usize, np: usize) -> (r: bool)
    requires
        ns == s@.len(),
        np == p@.len(),
        i + np <= ns,
    ensures
        r == spec_match_at(s@, p@, i as int),
{
    let mut k: usize = 0;
    while k < np
        invariant
            0 <= k <= np,
            ns == s@.len(),
            np == p@.len(),
            i + np <= ns,
            forall|m: int| 0 <= m < k ==> s@[i + m] == p@[m],
        decreases np - k,
    {
        if s.get_char(i + k) != p.get_char(k) {
            assert(s@.subrange(i as int, i + np) != p@) by {
                assert(s@.subrange(i as int, i + np)[k as int] != p@[k as int]);
            }
            return false;
        }
        k = k + 1;
    }
    assert(s@.subrange(i as int, i + np) =~= p@);
    true
}

/// `str::contains`, proved against `spec_has_sub`.
pub fn has_sub(s: &str, p: &str) -> (r: bool)
    ensures
        r == spec_has_sub(s@, p@),
{
    let ns = s.unicode_len();
    let np = p.unicode_len();
    if np > ns {
        assert(!spec_has_sub(s@, p@));
        return false;
    }
    let lim = ns - np;
    let mut i: usize = 0;
    loop
        invariant
            0 <= i <= lim,
            lim == ns - np,
            np <= ns,
            ns == s@.len(),
            np == p@.len(),
            forall|k: int| 0 <= k < i ==> !spec_match_at(s@, p@, k),
        decreases lim - i,
    {
        if match_at(s, p, i, ns, np) {
            return true;
        }
        if i == lim {
            assert(forall|k: int| !spec_match_at(s@, p@, k));
            return false;
        }
        i = i + 1;
    }
}

/// `str::starts_with`, proved against `spec_starts_with`.
pub fn starts_with(s: &str, p: &str) -> (r: bool)
    ensures
        r == spec_starts_with(s@, p@),
{
    let ns = s.unicode_len();
    let np = p.unicode_len();
    if np > ns {
        return false;
    }
    match_at(s, p, 0, ns, np)
}

/// `a == b` for string slices, by characters.
pub fn str_eq(a: &str, b: &str) -> (r: bool)
    ensures
        r == (a@ == b@),
{
    let na = a.unicode_len();
    let nb = b.unicode_len();
    if na != nb {
        return false;
    }
    let r = match_at(a, b, 0, na, nb);
    proof {
        if r {
            assert(a@.subrange(0, nb as int) =~= a@);
        } else {
            assert(a@.subrange(0, nb as int) =~= a@);
        }
    }
    r
}

/// A delimiter line consists of exactly three dashes.
pub open spec fn spec_is_delim(line: Seq<char>) -> bool {
    line == seq!['-', '-', '-']
}

pub fn is_delim_str(line: &str) -> (r: bool)
    ensures
        r == spec_is_delim(line@),
{
    let n = line.unicode_len();
    if n != 3 {
        assert(!spec_is_delim(line@));
        return false;
    }
    let r = line.get_char(0) == '-' && line.get_char(1) == '-' && line.get_char(2) == '-';
    proof {
        if r {
            assert(line@ =~= seq!['-', '-', '-']);
        } else {
            assert(line@ != seq!['-', '-', '-']);
        }
    }
    r
}

// ---------------------------------------------------------------------------
// Leading and trailing repeats of one character
// ---------------------------------------------------------------------------

/// What `str::trim_start_matches` leaves for a one-character pattern.
pub open spec fn spec_drop_lead(s: Seq<char>, c: char) -> Seq<char>
    decreases s.len(),
{
    if s.len() > 0 && s[0] == c {
        spec_drop_lead(s.skip(1), c)
    } else {
        s
    }
}

/// What `str::trim_end_matches` leaves for a one-character pattern.
pub open spec fn spec_drop_trail(s: Seq<char>, c: char) -> Seq<char>
    decreases s.len(),
{
    if s.len() > 0 && s[s.len() - 1] == c {
        spec_drop_trail(s.take(s.len() - 1), c)
    } else {
        s
    }
}

proof fn lemma_drop_lead_skip(s: Seq<char>, c: char, i: int)
    requires
        0 <= i <= s.len(),
        forall|k: int| 0 <= k < i ==> s[k] == c,
        i == s.len() || s[i] != c,
    ensures
        spec_drop_lead(s, c) == s.skip(i),
    decreases i,
{
    if i == 0 {
        assert(s.skip(0) =~= s);
    } else {
        lemma_drop_lead_skip(s.skip(1), c, i - 1);
        assert(s.skip(1).skip(i - 1) =~= s.skip(i));
    }
}

proof fn lemma_drop_trail_take(s: Seq<char>, c: char, j: int)
    requires
        0 <= j <= s.len(),
        forall|k: int| j <= k < s.len() ==> s[k] == c,
        j == 0 || s[j - 1] != c,
    ensures
        spec_drop_trail(s, c) == s.take(j),
    decreases s.len() - j,
{
    if j == s.len() {
        assert(s.take(j) =~= s);
    } else {
        lemma_drop_trail_take(s.take(s.len() - 1), c, j);
        assert(s.take(s.len() - 1).take(j) =~= s.take(j));
    }
}

/// Strips every leading `lead` and every trailing `trail` character, as the
/// chained `str::trim_start_matches` / `str::trim_end_matches` calls do.
pub fn drop_lead_trail<'a>(s: &'a str, lead: char, trail: char) -> (r: &'a str)
    ensures
        r@ == spec_drop_trail(spec_drop_lead(s@, lead), trail),
{
    let n = s.unicode_len();
    let mut i: usize = 0;
    while i < n && s.get_char(i) == lead
        invariant
            0 <= i <= n,
            n == s@.len(),
            forall|k: int| 0 <= k < i ==> s@[k] == lead,
        decreases n - i,
    {
        i = i + 1;
    }
    let mut j: usize = n;
    while j > i && s.get_char(j - 1) == trail
        invariant
            i <= j <= n,
            n == s@.len(),
            forall|k: int| j <= k < n ==> s@[k] == trail,
        decreases j,
    {
        j = j - 1;
    }
    proof {
        lemma_drop_lead_skip(s@, lead, i as int);
        let t = s@.skip(i as int);
        if j == i {
            lemma_drop_trail_take(t, trail, 0);
        } else {
            assert(forall|k: int| j - i <= k < t.len() ==> #[trigger] t[k] == trail) by {
                assert(forall|k: int| j <= k < n ==> s@[k] == trail);
            }
            lemma_drop_trail_take(t, trail, j - i);
        }
        assert(t.take(j - i) =~= s@.subrange(i as int, j as int));
    }
    s.substring_char(i, j)
}

// ---------------------------------------------------------------------------
// Splitting into lines
// ---------------------------------------------------------------------------

/// One trailing carriage return removed, as the line iterators of std do for
/// a line that a newline terminated.
pub open spec fn spec_strip_cr(l: Seq<char>) -> Seq<char> {
    if l.len() > 0 && l[l.len() - 1] == '\r' {
        l.take(l.len() - 1)
    } else {
        l
    }
}

/// The lines of `s`, split at `'\n'`, each terminated line with a trailing
/// `'\r'` removed, and no empty line after a terminating final newline —
/// the sequence that `BufRead::lines` yields.
pub open spec fn spec_lines(s: Seq<char>) -> Seq<Seq<char>>
    decreases s.len(),
{
    if s.len() == 0 {
        Seq::empty()
    } else {
        match spec_first_ix(s, '\n') {
            Some(i) => {
                let k = if 0 <= i < s.len() {
                    i
                } else {
                    0
                };
                seq![spec_strip_cr(s.take(k))] + spec_lines(s.skip(k + 1))
            },
            None => seq![s],
        }
    }
}

pub fn split_lines<'a>(s: &'a str) -> (r: Vec<&'a str>)
    ensures
        r.deep_view() == spec_lines(s@),
{
    let n = s.unicode_len();
    let mut out: Vec<&str> = Vec::new();
    let mut pos: usize = 0;
    proof {
        assert(s@.skip(0) =~= s@);
        assert(out.deep_view() =~= Seq::<Seq<char>>::empty());
        assert(out.deep_view() + spec_lines(s@) =~= spec_lines(s@));
    }
    while pos < n
        invariant
            0 <= pos <= n,
            n == s@.len(),
            spec_lines(s@) == out.deep_view() + spec_lines(s@.skip(pos as int)),
        decreases n - pos,
    {
        let ghost t = s@.skip(pos as int);
        let mut j: usize = pos;
        while j < n && s.get_char(j) != '\n'
            invariant
                pos <= j <= n,
                n == s@.len(),
                forall|k: int| pos <= k < j ==> s@[k] != '\n',
            decreases n - j,
        {
            j = j + 1;
        }
        let ghost old_out = out.deep_view();
        if j < n {
            let end = if j > pos && s.get_char(j - 1) == '\r' {
                j - 1
            } else {
                j
            };
            let line = s.substring_char(pos, end);
            out.push(line);
            proof {
                assert(forall|k: int| 0 <= k < j - pos ==> t[k] != '\n');
                lemma_first_ix_found(t, '\n', j - pos);
                assert(t.take(j - pos) =~= s@.subrange(pos as int, j as int));
                assert(spec_strip_cr(t.take(j - pos)) =~= line@);
                assert(t.skip(j - pos + 1) =~= s@.skip(j + 1));
                assert(spec_lines(t) == seq![line@] + spec_lines(s@.skip(j + 1)));
                assert(out.deep_view() =~= old_out.push(line@));
                assert(old_out + spec_lines(t) =~= out.deep_view() + spec_lines(s@.skip(j + 1)));
            }
            pos = j + 1;
        } else {
            let line = s.substring_char(pos, n);
            out.push(line);
            proof {
                assert(forall|k: int| 0 <= k < t.len() ==> t[k] != '\n');
                lemma_first_ix_none(t, '\n');
                assert(t =~= line@);
                assert(spec_lines(t) == seq![line@]);
                assert(s@.skip(n as int).len() == 0);
                assert(spec_lines(s@.skip(n as int)) =~= Seq::<Seq<char>>::empty());
                assert(out.deep_view() =~= old_out.push(line@));
                assert(old_out + spec_lines(t) =~= out.deep_view() + spec_lines(s@.skip(n as int)));
            }
            pos = n;
        }
    }
    proof {
        assert(s@.skip(pos as int).len() == 0);
        assert(spec_lines(s@.skip(pos as int)) =~= Seq::<Seq<char>>::empty());
        assert(out.deep_view() =~= spec_lines(s@));
    }
    out
}


/// The pieces of `s` split at `c`, as `str::split` yields them: an empty
/// input gives one empty piece, and a trailing separator a trailing empty
/// piece.
pub open spec fn spec_split(s: Seq<char>, c: char) -> Seq<Seq<char>>
    decreases s.len(),
{
    match spec_first_ix(s, c) {
        Some(i) => {
            let k = if 0 <= i < s.len() {
                i
            } else {
                0
            };
            seq![s.take(k)] + spec_split(s.skip(k + 1), c)
        },
        None => seq![s],
    }
}

pub fn split_plain<'a>(s: &'a str, c: char) -> (r: Vec<&'a str>)
    ensures
        r.deep_view() == spec_split(s@, c),
{
    let n = s.unicode_len();
    let mut out: Vec<&str> = Vec::new();
    let mut pos: usize = 0;
    proof {
        assert(s@.skip(0) =~= s@);
        assert(out.deep_view() =~= Seq::<Seq<char>>::empty());
        assert(out.deep_view() + spec_split(s@, c) =~= spec_split(s@, c));
    }
    loop
        invariant
            0 <= pos <= n,
            n == s@.len(),
            spec_split(s@, c) == out.deep_view() + spec_split(s@.skip(pos as int), c),
        decreases n - pos,
    {
        let ghost t = s@.skip(pos as int);
        let mut j: usize = pos;
        while j < n && s.get_char(j) != c
            invariant
                pos <= j <= n,
                n == s@.len(),
                forall|k: int| pos <= k < j ==> s@[k] != c,
            decreases n - j,
        {
            j = j + 1;
        }
        let ghost before = out.deep_view();
        let piece = s.substring_char(pos, j);
        out.push(piece);
        if j < n {
            proof {
                assert(forall|k: int| 0 <= k < j - pos ==> t[k] != c);
                lemma_first_ix_found(t, c, j - pos);
                assert(t.take(j - pos) =~= piece@);
                assert(t.skip(j - pos + 1) =~= s@.skip(j + 1));
                assert(spec_split(t, c) == seq![piece@] + spec_split(s@.skip(j + 1), c));
                assert(out.deep_view() =~= before.push(piece@));
                assert(before + spec_split(t, c) =~= out.deep_view() + spec_split(
                    s@.skip(j + 1),
                    c,
                ));
            }
            pos = j + 1;
        } else {
            proof {
                assert(forall|k: int| 0 <= k < t.len() ==> t[k] != c);
                lemma_first_ix_none(t, c);
                assert(t =~= piece@);
                assert(spec_split(t, c) == seq![piece@]);
                assert(out.deep_view() =~= before.push(piece@));
                assert(before + spec_split(t, c) =~= out.deep_view());
                assert(out.deep_view() =~= spec_split(s@, c));
            }
            return out;
        }
    }
}

/// `s` ends with `p` (`str::ends_with`).
pub open spec fn spec_ends_with(s: Seq<char>, p: Seq<char>) -> bool {
    p.len() <= s.len() && s.subrange(s.len() - p.len(), s.len() as int) == p
}

pub fn ends_with(s: &str, p: &str) -> (r: bool)
    ensures
        r == spec_ends_with(s@, p@),
{
    let ns = s.unicode_len();
    let np = p.unicode_len();
    if np > ns {
        return false;
    }
    match_at(s, p, ns - np, ns, np)
}

// ---------------------------------------------------------------------------
// Building strings
// ---------------------------------------------------------------------------

/// Relies on `String::push` of std: appends the one character to the end.
#[verifier::external_body]
pub fn push_char(out: &mut String, c: char)
    ensures
        final(out)@ == old(out)@.push(c),
{
    out.push(c);
}

/// `count` copies of `c`.
pub open spec fn spec_repeat(c: char, count: nat) -> Seq<char>
    decreases count,
{
    if count == 0 {
        Seq::empty()
    } else {
        spec_repeat(c, (count - 1) as nat).push(c)
    }
}

pub fn push_repeat(out: &mut String, c: char, count: usize)
    ensures
        final(out)@ == old(out)@ + spec_repeat(c, count as nat),
{
    let mut k: usize = 0;
    while k < count
        invariant
            0 <= k <= count,
            out@ == old(out)@ + spec_repeat(c, k as nat),
        decreases count - k,
    {
        push_char(out, c);
        k = k + 1;
    }
    assert(out@ =~= old(out)@ + spec_repeat(c, count as nat));
}

// ---------------------------------------------------------------------------
// Decimal rendering
// ---------------------------------------------------------------------------

pub open spec fn spec_digit_char(d: nat) -> char {
    if d == 0 {
        '0'
    } else if d == 1 {
        '1'
    } else if d == 2 {
        '2'
    } else if d == 3 {
        '3'
    } else if d == 4 {
        '4'
    } else if d == 5 {
        '5'
    } else if d == 6 {
        '6'
    } else if d == 7 {
        '7'
    } else if d == 8 {
        '8'
    } else {
        '9'
    }
}

/// The usual decimal rendering of `n`, most significant digit first.
pub open spec fn spec_decimal(n: nat) -> Seq<char>
    decreases n,
{
    if n < 10 {
        seq![spec_digit_char(n)]
    } else {
        spec_decimal(n / 10) + seq![spec_digit_char(n % 10)]
    }
}

fn digit_char(d: usize) -> (c: char)
    requires
        d < 10,
    ensures
        c == spec_digit_char(d as nat),
{
    if d == 0 {
        '0'
    } else if d == 1 {
        '1'
    } else if d == 2 {
        '2'
    } else if d == 3 {
        '3'
    } else if d == 4 {
        '4'
    } else if d == 5 {
        '5'
    } else if d == 6 {
        '6'
    } else if d == 7 {
        '7'
    } else if d == 8 {
        '8'
    } else {
        '9'
    }
}

pub fn push_decimal(out: &mut String, n: usize)
    ensures
        final(out)@ == old(out)@ + spec_decimal(n as nat),
    decreases n,
{
    if n < 10 {
        push_char(out, digit_char(n));
        assert(out@ =~= old(out)@ + spec_decimal(n as nat));
    } else {
        assert(n / 10 < n && n / 10 >= 1 && n % 10 < 10) by (nonlinear_arith)
            requires
                n >= 10,
        ;
        push_decimal(out, n / 10);
        push_char(out, digit_char(n % 10));
        assert(out@ =~= old(out)@ + spec_decimal(n as nat));
    }
}

/// The number of characters of `spec_decimal(n)`.
pub fn decimal_len(n: usize) -> (r: usize)
    ensures
        r == spec_decimal(n as nat).len(),
        r >= 1,
    decreases n,
{
    if n < 10 {
        1
    } else {
        assert(n / 10 < n && n / 10 >= 1) by (nonlinear_arith)
            requires
                n >= 10,
        ;
        let rest = decimal_len(n / 10);
        assert(rest < usize::MAX) by {
            lemma_decimal_len_bound(n as nat / 10);
        }
        rest + 1
    }
}

proof fn lemma_decimal_len_bound(n: nat)
    ensures
        spec_decimal(n).len() <= n + 1,
    decreases n,
{
    if n >= 10 {
        assert(n / 10 < n && n / 10 >= 1) by (nonlinear_arith)
            requires
                n >= 10,
        ;
        lemma_decimal_len_bound(n / 10);
    }
}

} // verus!
