//! Character-level text operations with their specifications: search,
//! replacement, splitting and line breaking, as the standard string methods
//! perform them.
use vstd::prelude::*;

verus! {

// ---------------------------------------------------------------------------
// Case mapping (standard library, Unicode tables)
// ---------------------------------------------------------------------------

/// What `str::to_lowercase` returns for the characters `s`.
pub uninterp spec fn spec_to_lowercase(s: Seq<char>) -> Seq<char>;

/// What `str::to_uppercase` returns for the characters `s`.
pub uninterp spec fn spec_to_uppercase(s: Seq<char>) -> Seq<char>;

/// Every character is ASCII.
pub open spec fn is_ascii_text(s: Seq<char>) -> bool {
    forall|i: int| 0 <= i < s.len() ==> (#[trigger] s[i] as u32) < 128
}

/// The lower case of an ASCII character: `A`..`Z` become `a`..`z`.
pub open spec fn ascii_lower(c: char) -> char {
    if 65 <= (c as u32) && (c as u32) <= 90 {
        ((c as u32) + 32) as char
    } else {
        c
    }
}

/// The upper case of an ASCII character: `a`..`z` become `A`..`Z`.
pub open spec fn ascii_upper(c: char) -> char {
    if 97 <= (c as u32) && (c as u32) <= 122 {
        ((c as u32) - 32) as char
    } else {
        c
    }
}

/// Calls `str::to_lowercase`. The contract names the result (Unicode lower
/// case mapping, a function of the characters alone) without spelling out the
/// Unicode tables; of ASCII text it states the mapping, in which only `A`..`Z`
/// change.
#[verifier::external_body]
pub(crate) fn to_lowercase(s: &str) -> (r: String)
    ensures
        r@ == spec_to_lowercase(s@),
        is_ascii_text(s@) ==> r@ == s@.map_values(|c: char| ascii_lower(c)),
{
    s.to_lowercase()
}

/// Calls `str::to_uppercase`. The contract names the result (Unicode upper
/// case mapping, a function of the characters alone) without spelling out the
/// Unicode tables; of ASCII text it states the mapping, in which only `a`..`z`
/// change.
#[verifier::external_body]
pub(crate) fn to_uppercase(s: &str) -> (r: String)
    ensures
        r@ == spec_to_uppercase(s@),
        is_ascii_text(s@) ==> r@ == s@.map_values(|c: char| ascii_upper(c)),
{
    s.to_uppercase()
}

/// Calls `String::push`: the character is appended.
#[verifier::external_body]
pub(crate) fn push_char(s: &mut String, c: char)
    ensures
        final(s)@ == old(s)@.push(c),
{
    s.push(c)
}

// ---------------------------------------------------------------------------
// Conversions
// ---------------------------------------------------------------------------

/// The characters of `s`, in order.
pub fn chars_of(s: &str) -> (v: Vec<char>)
    ensures
        v@ == s@,
{
    let mut v: Vec<char> = Vec::new();
    for c in it: s.chars()
        invariant
            v@ == it.seq().take(it.index() as int),
            it.seq() == s@,
    {
        v.push(c);
    }
    v
}

/// A `String` holding the characters `v`.
pub fn string_of(v: &Vec<char>) -> (s: String)
    ensures
        s@ == v@,
{
    let mut s = String::new();
    let n = v.len();
    let mut i: usize = 0;
    while i < n
        invariant
            i <= n,
            n == v@.len(),
            s@ == v@.take(i as int),
        decreases n - i,
    {
        push_char(&mut s, v[i]);
        i = i + 1;
        assert(s@ =~= v@.take(i as int));
    }
    assert(v@.take(n as int) =~= v@);
    s
}

/// `a` and `b` hold the same characters.
pub fn str_eq(a: &str, b: &str) -> (r: bool)
    ensures
        r == (a@ == b@),
{
    let x = String::from_str(a);
    let y = String::from_str(b);
    x == y
}

// ---------------------------------------------------------------------------
// Search
// ---------------------------------------------------------------------------

/// `p` occurs in `s` starting at index `i`.
pub open spec fn occurs_at(s: Seq<char>, p: Seq<char>, i: int) -> bool {
    0 <= i && i + p.len() <= s.len() && s.subrange(i, i + p.len()) == p
}

/// The first index at or after `k` where `p` occurs in `s`, as `str::find`
/// reports it (counted in characters).
pub open spec fn find_from(s: Seq<char>, p: Seq<char>, k: int) -> Option<int>
    decreases s.len() + 1 - k,
{
    if k < 0 || k + p.len() > s.len() {
        None
    } else if occurs_at(s, p, k) {
        Some(k)
    } else {
        find_from(s, p, k + 1)
    }
}

/// The first index where `p` occurs in `s`.
pub open spec fn find_spec(s: Seq<char>, p: Seq<char>) -> Option<int> {
    find_from(s, p, 0)
}

pub proof fn lemma_find_from_props(s: Seq<char>, p: Seq<char>, k: int)
    requires
        k >= 0,
    ensures
        match find_from(s, p, k) {
            Some(i) => k <= i && occurs_at(s, p, i) && forall|j: int|
                k <= j < i ==> !#[trigger] occurs_at(s, p, j),
            None => forall|j: int| k <= j ==> !#[trigger] occurs_at(s, p, j),
        },
    decreases s.len() + 1 - k,
{
    if k + p.len() <= s.len() && !occurs_at(s, p, k) {
        lemma_find_from_props(s, p, k + 1);
    }
}

/// Whether `p` occurs at index `i` of `s`.
pub fn matches_at(s: &Vec<char>, p: &Vec<char>, i: usize) -> (r: bool)
    ensures
        r == occurs_at(s@, p@, i as int),
{
    let n = s.len();
    let m = p.len();
    if i > n || m > n - i {
        return false;
    }
    let mut j: usize = 0;
    while j < m
        invariant
            j <= m,
            n == s@.len(),
            m == p@.len(),
            i + m <= n,
            forall|t: int| 0 <= t < j ==> s@[i + t] == p@[t],
        decreases m - j,
    {
        if s[i + j] != p[j] {
            assert(s@.subrange(i as int, i + m)[j as int] != p@[j as int]);
            return false;
        }
        j = j + 1;
    }
    assert(s@.subrange(i as int, i + m) =~= p@);
    true
}

/// The first index at or after `k` where `p` occurs in `s`.
pub fn find_chars_from(s: &Vec<char>, p: &Vec<char>, k: usize) -> (r: Option<usize>)
    ensures
        match r {
            Some(i) => find_from(s@, p@, k as int) == Some(i as int),
            None => find_from(s@, p@, k as int) is None,
        },
{
    let n = s.len();
    let m = p.len();
    if m == 0 {
        if k <= n {
            assert(s@.subrange(k as int, k as int) =~= p@);
            return Some(k);
        }
        return None;
    }
    if m > n {
        return None;
    }
    let mut i: usize = k;
    while i <= n - m
        invariant
            m >= 1,
            m <= n,
            k <= i,
            n == s@.len(),
            m == p@.len(),
            find_from(s@, p@, k as int) == find_from(s@, p@, i as int),
        decreases n + 1 - i,
    {
        if matches_at(s, p, i) {
            return Some(i);
        }
        i = i + 1;
    }
    None
}

/// Whether `p` occurs anywhere in `s`, as `str::contains`.
pub fn contains_chars(s: &Vec<char>, p: &Vec<char>) -> (r: bool)
    ensures
        r == (find_spec(s@, p@) is Some),
{
    find_chars_from(s, p, 0).is_some()
}

// ---------------------------------------------------------------------------
// Replacement
// ---------------------------------------------------------------------------

/// `str::replace(from, to)` for a non-empty `from`: every occurrence, found
/// left to right without overlap, becomes `to`.
pub open spec fn replace_spec(s: Seq<char>, from: Seq<char>, to: Seq<char>) -> Seq<char>
    decreases s.len(),
{
    if from.len() == 0 {
        s
    } else {
        match find_spec(s, from) {
            None => s,
            Some(i) => if 0 <= i && i + from.len() <= s.len() {
                s.take(i) + to + replace_spec(s.skip(i + from.len()), from, to)
            } else {
                s
            },
        }
    }
}

proof fn lemma_find_shift(s: Seq<char>, p: Seq<char>, k: int)
    requires
        s.len() > 0,
        k >= 0,
    ensures
        find_from(s, p, k + 1) == (match find_from(s.drop_first(), p, k) {
            Some(i) => Some(i + 1),
            None => None,
        }),
    decreases s.len() - k,
{
    let t = s.drop_first();
    if k + 1 + p.len() <= s.len() {
        assert(occurs_at(s, p, k + 1) == occurs_at(t, p, k)) by {
            assert(s.subrange(k + 1, k + 1 + p.len()) =~= t.subrange(k, k + p.len()));
        }
        if !occurs_at(s, p, k + 1) {
            lemma_find_shift(s, p, k + 1);
        }
    }
}

proof fn lemma_replace_step_miss(s: Seq<char>, from: Seq<char>, to: Seq<char>)
    requires
        from.len() > 0,
        s.len() > 0,
        !occurs_at(s, from, 0),
    ensures
        replace_spec(s, from, to) == seq![s[0]] + replace_spec(s.drop_first(), from, to),
{
    let t = s.drop_first();
    lemma_find_shift(s, from, 0);
    lemma_find_from_props(t, from, 0);
    match find_from(t, from, 0) {
        Some(i) => {
            assert(t.skip(i + from.len()) =~= s.skip(i + 1 + from.len()));
            assert(seq![s[0]] + t.take(i) =~= s.take(i + 1));
            assert(seq![s[0]] + (t.take(i) + to + replace_spec(t.skip(i + from.len()), from, to))
                =~= s.take(i + 1) + to + replace_spec(s.skip(i + 1 + from.len()), from, to));
        },
        None => {
            assert(seq![s[0]] + t =~= s);
        },
    }
}

proof fn lemma_replace_step_hit(s: Seq<char>, from: Seq<char>, to: Seq<char>)
    requires
        from.len() > 0,
        occurs_at(s, from, 0),
    ensures
        replace_spec(s, from, to) == to + replace_spec(s.skip(from.len() as int), from, to),
{
    assert(s.take(0) =~= Seq::<char>::empty());
    assert(Seq::<char>::empty() + to =~= to);
}

/// Every non-overlapping occurrence of `from` (non-empty) in `s`, found left
/// to right, replaced by `to`.
pub fn replace_chars(s: &Vec<char>, from: &Vec<char>, to: &Vec<char>) -> (r: Vec<char>)
    requires
        from@.len() > 0,
    ensures
        r@ == replace_spec(s@, from@, to@),
{
    let n = s.len();
    let m = from.len();
    let mut out: Vec<char> = Vec::new();
    let mut i: usize = 0;
    assert(s@.skip(0) =~= s@);
    while i < n
        invariant
            i <= n,
            n == s@.len(),
            m == from@.len(),
            m > 0,
            out@ + replace_spec(s@.skip(i as int), from@, to@) == replace_spec(s@, from@, to@),
        decreases n - i,
    {
        let ghost rest = s@.skip(i as int);
        if matches_at(s, from, i) {
            assert(occurs_at(rest, from@, 0)) by {
                assert(rest.subrange(0, m as int) =~= s@.subrange(i as int, i + m));
            }
            proof {
                lemma_replace_step_hit(rest, from@, to@);
            }
            let ghost before = out@;
            let mut j: usize = 0;
            while j < to.len()
                invariant
                    j <= to@.len(),
                    out@ == before + to@.take(j as int),
                decreases to@.len() - j,
            {
                out.push(to[j]);
                j = j + 1;
                assert(out@ =~= before + to@.take(j as int));
            }
            assert(to@.take(to@.len() as int) =~= to@);
            assert(rest.skip(m as int) =~= s@.skip(i + m));
            assert(before + (to@ + replace_spec(s@.skip(i + m), from@, to@)) =~= before + to@
                + replace_spec(s@.skip(i + m), from@, to@));
            i = i + m;
        } else {
            assert(!occurs_at(rest, from@, 0)) by {
                if i + m <= n {
                    assert(rest.subrange(0, m as int) =~= s@.subrange(i as int, i + m));
                }
            }
            proof {
                lemma_replace_step_miss(rest, from@, to@);
            }
            let ghost before = out@;
            out.push(s[i]);
            assert(rest.drop_first() =~= s@.skip(i + 1));
            assert(before + (seq![s@[i as int]] + replace_spec(s@.skip(i + 1), from@, to@))
                =~= out@ + replace_spec(s@.skip(i + 1), from@, to@));
            i = i + 1;
        }
    }
    assert(s@.skip(n as int) =~= Seq::<char>::empty());
    assert(out@ + Seq::<char>::empty() =~= out@);
    out
}

/// `str::replace` on a `&str` with a non-empty pattern.
pub fn replace_str(s: &str, from: &str, to: &str) -> (r: String)
    requires
        from@.len() > 0,
    ensures
        r@ == replace_spec(s@, from@, to@),
{
    let sc = chars_of(s);
    let fc = chars_of(from);
    let tc = chars_of(to);
    let rc = replace_chars(&sc, &fc, &tc);
    string_of(&rc)
}

// ---------------------------------------------------------------------------
// Splitting
// ---------------------------------------------------------------------------

/// `s` cut at every occurrence of `sep`: the pieces that `str::split` with a
/// `char` pattern yields, empty pieces included (`n` separators give `n + 1`
/// pieces).
pub open spec fn split_at_char(s: Seq<char>, sep: char) -> Seq<Seq<char>>
    decreases s.len(),
{
    if s.len() == 0 {
        seq![Seq::<char>::empty()]
    } else {
        let rest = split_at_char(s.drop_last(), sep);
        if s.last() == sep {
            rest.push(Seq::<char>::empty())
        } else {
            rest.update(rest.len() - 1, rest.last().push(s.last()))
        }
    }
}

pub proof fn lemma_split_nonempty(s: Seq<char>, sep: char)
    ensures
        split_at_char(s, sep).len() >= 1,
    decreases s.len(),
{
    if s.len() > 0 {
        lemma_split_nonempty(s.drop_last(), sep);
    }
}

/// The character sequences held by a list of pieces.
pub open spec fn pieces_view(parts: Seq<Vec<char>>) -> Seq<Seq<char>> {
    parts.map_values(|p: Vec<char>| p@)
}

/// The pieces of `s` between the occurrences of `sep`.
pub fn split_chars(s: &Vec<char>, sep: char) -> (parts: Vec<Vec<char>>)
    ensures
        pieces_view(parts@) == split_at_char(s@, sep),
{
    let mut done: Vec<Vec<char>> = Vec::new();
    let mut cur: Vec<char> = Vec::new();
    let n = s.len();
    let mut i: usize = 0;
    assert(s@.take(0) =~= Seq::<char>::empty());
    while i < n
        invariant
            i <= n,
            n == s@.len(),
            split_at_char(s@.take(i as int), sep) =~= pieces_view(done@).push(cur@),
        decreases n - i,
    {
        let c = s[i];
        let ghost before = s@.take(i as int);
        let ghost after = s@.take(i + 1);
        assert(after.drop_last() =~= before);
        assert(after.last() == c);
        if c == sep {
            let piece = cur;
            cur = Vec::new();
            let ghost old_view = pieces_view(done@);
            done.push(piece);
            assert(pieces_view(done@) =~= old_view.push(piece@));
        } else {
            cur.push(c);
        }
        i = i + 1;
        proof {
            lemma_split_nonempty(before, sep);
        }
    }
    assert(s@.take(n as int) =~= s@);
    let ghost old_view = pieces_view(done@);
    done.push(cur);
    assert(pieces_view(done@) =~= old_view.push(cur@));
    done
}


/// The lines of `s`, as `str::lines` yields them: pieces between `\n`s, a
/// `\r` just before a `\n` dropped, and no empty last line after a final
/// `\n`.
pub open spec fn lines_spec(s: Seq<char>) -> Seq<Seq<char>> {
    let parts = split_at_char(s, '\n');
    let kept = if parts.last().len() == 0 {
        parts.drop_last()
    } else {
        parts
    };
    Seq::new(
        kept.len(),
        |i: int|
            if i < parts.len() - 1 && kept[i].len() > 0 && kept[i].last() == '\r' {
                kept[i].drop_last()
            } else {
                kept[i]
            },
    )
}

/// The lines of `s`, as `str::lines` yields them.
pub fn lines_of(s: &Vec<char>) -> (r: Vec<Vec<char>>)
    ensures
        pieces_view(r@) == lines_spec(s@),
{
    let parts = split_chars(s, '\n');
    let ghost pv = pieces_view(parts@);
    proof {
        lemma_split_nonempty(s@, '\n');
    }
    let np = parts.len();
    let keep = if parts[np - 1].len() == 0 {
        np - 1
    } else {
        np
    };
    let mut out: Vec<Vec<char>> = Vec::new();
    let mut i: usize = 0;
    while i < keep
        invariant
            i <= keep,
            np == parts@.len(),
            np >= 1,
            keep <= np,
            pv == pieces_view(parts@),
            pv == split_at_char(s@, '\n'),
            keep == (if pv.last().len() == 0 { np - 1 } else { np as int }),
            pieces_view(out@) =~= lines_spec(s@).take(i as int),
            lines_spec(s@).len() == keep,
        decreases keep - i,
    {
        let piece = &parts[i];
        let len = piece.len();
        assert(piece@ == pv[i as int]);
        let mut line: Vec<char> = Vec::new();
        let cut = if i + 1 < np && len > 0 && piece[len - 1] == '\r' {
            len - 1
        } else {
            len
        };
        let mut j: usize = 0;
        while j < cut
            invariant
                j <= cut,
                cut <= len,
                len == piece@.len(),
                line@ == piece@.take(j as int),
            decreases cut - j,
        {
            line.push(piece[j]);
            j = j + 1;
            assert(line@ =~= piece@.take(j as int));
        }
        assert(line@ =~= lines_spec(s@)[i as int]);
        let ghost before = pieces_view(out@);
        out.push(line);
        assert(pieces_view(out@) =~= before.push(line@));
        i = i + 1;
    }
    assert(lines_spec(s@).take(keep as int) =~= lines_spec(s@));
    out
}

/// The part of `s` before the first `sep`, or all of `s`: the first piece
/// that `str::split` yields.
pub open spec fn first_piece(s: Seq<char>, sep: char) -> Seq<char> {
    split_at_char(s, sep)[0]
}

/// The non-empty pieces of `s` between the occurrences of `sep`.
pub open spec fn nonempty_pieces(s: Seq<char>, sep: char) -> Seq<Seq<char>> {
    split_at_char(s, sep).filter(|p: Seq<char>| p.len() > 0)
}

/// The character sequences held by a list of strings.
pub open spec fn strings_view(v: Seq<String>) -> Seq<Seq<char>> {
    v.map_values(|s: String| s@)
}

/// The non-empty pieces of `s` between the occurrences of `sep`, as
/// `split(sep).filter(|p| !p.is_empty())` collects them.
pub fn nonempty_split(s: &str, sep: char) -> (r: Vec<String>)
    ensures
        strings_view(r@) == nonempty_pieces(s@, sep),
{
    let sc = chars_of(s);
    let parts = split_chars(&sc, sep);
    let ghost pv = pieces_view(parts@);
    let mut out: Vec<String> = Vec::new();
    let n = parts.len();
    let mut i: usize = 0;
    assert(pv.take(0) =~= Seq::<Seq<char>>::empty());
    while i < n
        invariant
            i <= n,
            n == parts@.len(),
            pv == pieces_view(parts@),
            pv == split_at_char(s@, sep),
            strings_view(out@) =~= pv.take(i as int).filter(|p: Seq<char>| p.len() > 0),
        decreases n - i,
    {
        let ghost before = strings_view(out@);
        assert(pv.take(i + 1).drop_last() =~= pv.take(i as int));
        assert(pv.take(i + 1).last() == parts@[i as int]@);
        reveal_with_fuel(Seq::filter, 1);
        if parts[i].len() > 0 {
            let piece = string_of(&parts[i]);
            out.push(piece);
            assert(strings_view(out@) =~= before.push(piece@));
        }
        i = i + 1;
    }
    assert(pv.take(n as int) =~= pv);
    out
}

} // verus!
