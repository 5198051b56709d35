//! Character-sequence utilities: the string operations that git's textual
//! output is taken apart with, each stated over `Seq<char>`.
use vstd::prelude::*;

verus! {

// ---------------------------------------------------------------------------
// Specifications
// ---------------------------------------------------------------------------

/// Leftmost index at which `p` occurs in `s`.
pub open spec fn find(s: Seq<char>, p: Seq<char>) -> Option<int>
    decreases s.len(),
{
    if s.len() < p.len() {
        None
    } else if s.take(p.len() as int) == p {
        Some(0)
    } else if s.len() == 0 {
        None
    } else {
        match find(s.drop_first(), p) {
            Some(i) => Some(i + 1),
            None => None,
        }
    }
}

pub proof fn lemma_find_bounds(s: Seq<char>, p: Seq<char>)
    ensures
        find(s, p) matches Some(i) ==> 0 <= i && i + p.len() <= s.len() && s.subrange(i, i + p.len()) == p,
    decreases s.len(),
{
    if s.len() >= p.len() && s.take(p.len() as int) != p && s.len() > 0 {
        lemma_find_bounds(s.drop_first(), p);
        if let Some(i) = find(s.drop_first(), p) {
            assert(s.subrange(i + 1, i + 1 + p.len()) =~= s.drop_first().subrange(i, i + p.len()));
        }
    }
}

/// The pieces of `s` between the non-overlapping occurrences of `p`,
/// leftmost first (`str::split` with a string pattern).
pub open spec fn split(s: Seq<char>, p: Seq<char>) -> Seq<Seq<char>>
    decreases s.len(),
{
    if p.len() == 0 {
        seq![s]
    } else {
        match find(s, p) {
            Some(i) => {
                proof {
                    lemma_find_bounds(s, p);
                }
                seq![s.take(i)] + split(s.skip(i + p.len()), p)
            },
            None => seq![s],
        }
    }
}

pub open spec fn strip_cr(s: Seq<char>) -> Seq<char> {
    if s.len() > 0 && s.last() == '\r' {
        s.drop_last()
    } else {
        s
    }
}

/// `str::lines`: pieces between `'\n'`, a `'\r'` before each `'\n'` removed,
/// no final empty piece after a trailing newline.
pub open spec fn lines(s: Seq<char>) -> Seq<Seq<char>> {
    let pieces = split(s, seq!['\n']);
    let n = if pieces.last().len() == 0 { pieces.len() - 1 } else { pieces.len() as int };
    Seq::new(n as nat, |i: int| if i + 1 < pieces.len() { strip_cr(pieces[i]) } else { pieces[i] })
}

/// Unicode `White_Space`, as `char::is_whitespace` documents it.
pub open spec fn is_ws(c: char) -> bool {
    ||| c == '\t' || c == '\n' || c == '\x0B' || c == '\x0C' || c == '\r' || c == ' '
    ||| c == '\u{85}' || c == '\u{A0}' || c == '\u{1680}'
    ||| ('\u{2000}' <= c && c <= '\u{200A}')
    ||| c == '\u{2028}' || c == '\u{2029}' || c == '\u{202F}' || c == '\u{205F}' || c == '\u{3000}'
}

pub open spec fn trim_start(s: Seq<char>) -> Seq<char>
    decreases s.len(),
{
    if s.len() > 0 && is_ws(s[0]) {
        trim_start(s.drop_first())
    } else {
        s
    }
}

pub open spec fn trim_end(s: Seq<char>) -> Seq<char>
    decreases s.len(),
{
    if s.len() > 0 && is_ws(s.last()) {
        trim_end(s.drop_last())
    } else {
        s
    }
}

/// `str::trim`.
pub open spec fn trim(s: Seq<char>) -> Seq<char> {
    trim_end(trim_start(s))
}

/// `str::trim_start_matches` with a set of characters given as a sequence.
pub open spec fn trim_start_any(s: Seq<char>, set: Seq<char>) -> Seq<char>
    decreases s.len(),
{
    if s.len() > 0 && set.contains(s[0]) {
        trim_start_any(s.drop_first(), set)
    } else {
        s
    }
}

pub open spec fn starts_with(s: Seq<char>, p: Seq<char>) -> bool {
    p.len() <= s.len() && s.take(p.len() as int) == p
}

/// `str::strip_prefix`.
pub open spec fn strip_prefix(s: Seq<char>, p: Seq<char>) -> Option<Seq<char>> {
    if starts_with(s, p) {
        Some(s.skip(p.len() as int))
    } else {
        None
    }
}

pub open spec fn contains(s: Seq<char>, p: Seq<char>) -> bool {
    find(s, p) is Some
}

/// `parts.join(sep)`.
pub open spec fn join(parts: Seq<Seq<char>>, sep: Seq<char>) -> Seq<char>
    decreases parts.len(),
{
    if parts.len() == 0 {
        seq![]
    } else if parts.len() == 1 {
        parts[0]
    } else {
        join(parts.drop_last(), sep) + sep + parts.last()
    }
}

/// The first piece of `s` before `c`, and what follows `c`, if `c` occurs.
pub open spec fn split_once(s: Seq<char>, c: char) -> (Seq<char>, Option<Seq<char>>) {
    match find(s, seq![c]) {
        Some(i) => (s.take(i), Some(s.skip(i + 1))),
        None => (s, None),
    }
}

/// `s.splitn(3, c)`, as the list of its pieces.
pub open spec fn splitn3(s: Seq<char>, c: char) -> Seq<Seq<char>> {
    let (a, r1) = split_once(s, c);
    match r1 {
        None => seq![a],
        Some(r) => {
            let (b, r2) = split_once(r, c);
            match r2 {
                None => seq![a, b],
                Some(rest) => seq![a, b, rest],
            }
        },
    }
}

pub open spec fn digit_char(d: int) -> char {
    if d == 0 { '0' } else if d == 1 { '1' } else if d == 2 { '2' } else if d == 3 { '3' }
    else if d == 4 { '4' } else if d == 5 { '5' } else if d == 6 { '6' } else if d == 7 { '7' }
    else if d == 8 { '8' } else { '9' }
}

/// Decimal digits of `n`, as `{}` formats an unsigned integer.
pub open spec fn decimal(n: nat) -> Seq<char>
    decreases n,
{
    if n < 10 {
        seq![digit_char(n as int)]
    } else {
        decimal(n / 10).push(digit_char((n % 10) as int))
    }
}

pub open spec fn is_digit(c: char) -> bool {
    '0' <= c && c <= '9'
}

pub open spec fn digits_value(s: Seq<char>) -> nat
    decreases s.len(),
{
    if s.len() == 0 {
        0
    } else {
        digits_value(s.drop_last()) * 10 + ((s.last() as nat) - ('0' as nat)) as nat
    }
}

pub open spec fn all_digits(d: Seq<char>) -> bool {
    forall|i: int| 0 <= i < d.len() ==> is_digit(#[trigger] d[i])
}

/// What follows an optional leading `'+'`.
pub open spec fn unsigned_part(s: Seq<char>) -> Seq<char> {
    if s.len() > 0 && s[0] == '+' { s.drop_first() } else { s }
}

/// `str::parse::<u32>`: an optional `'+'`, then at least one ASCII digit,
/// the value at most `u32::MAX`.
pub open spec fn parse_u32(s: Seq<char>) -> Option<u32> {
    let d = unsigned_part(s);
    if d.len() > 0 && all_digits(d) && digits_value(d) <= u32::MAX {
        Some(digits_value(d) as u32)
    } else {
        None
    }
}

// ---------------------------------------------------------------------------
// Executable counterparts
// ---------------------------------------------------------------------------

/// The characters of `s`.
pub fn chars_of(s: &str) -> (v: Vec<char>)
    ensures
        v@ == s@,
{
    let mut v: Vec<char> = Vec::new();
    for c in it: s.chars()
        invariant
            v@ == it.seq().take(it.index() as int),
            it.seq() == s@,
    {
        v.push(c);
    }
    v
}

/// `String::push`.
#[verifier::external_body]
fn push_char(s: &mut String, c: char)
    ensures
        final(s)@ == old(s)@.push(c),
{
    s.push(c);
}

/// The string made of `v[lo..hi]`.
pub fn string_of(v: &Vec<char>, lo: usize, hi: usize) -> (s: String)
    requires
        lo <= hi <= v.len(),
    ensures
        s@ == v@.subrange(lo as int, hi as int),
{
    let mut s = String::new();
    let mut i = lo;
    while i < hi
        invariant
            lo <= i <= hi <= v.len(),
            s@ == v@.subrange(lo as int, i as int),
        decreases hi - i,
    {
        push_char(&mut s, v[i]);
        assert(v@.subrange(lo as int, i + 1) =~= v@.subrange(lo as int, i as int).push(v@[i as int]));
        i += 1;
    }
    s
}

pub fn string_of_all(v: &Vec<char>) -> (s: String)
    ensures
        s@ == v@,
{
    assert(v@.subrange(0, v@.len() as int) =~= v@);
    string_of(v, 0, v.len())
}

/// `s + t` as a new string.
pub fn concat(s: &String, t: &str) -> (r: String)
    ensures
        r@ == s@ + t@,
{
    let mut r = s.clone();
    r.append(t);
    r
}

/// A copy of `v[lo..hi]`.
pub fn slice_of(v: &Vec<char>, lo: usize, hi: usize) -> (r: Vec<char>)
    requires
        lo <= hi <= v.len(),
    ensures
        r@ == v@.subrange(lo as int, hi as int),
{
    let mut r: Vec<char> = Vec::new();
    let mut i = lo;
    while i < hi
        invariant
            lo <= i <= hi <= v.len(),
            r@ == v@.subrange(lo as int, i as int),
        decreases hi - i,
    {
        r.push(v[i]);
        assert(v@.subrange(lo as int, i + 1) =~= v@.subrange(lo as int, i as int).push(v@[i as int]));
        i += 1;
    }
    r
}

/// Whether `p` occurs in `s` at index `i`.
pub fn matches_at(s: &Vec<char>, i: usize, p: &Vec<char>) -> (b: bool)
    ensures
        b == (i + p.len() <= s.len() && s@.subrange(i as int, i + p.len()) == p@),
{
    if i > s.len() || p.len() > s.len() - i {
        return false;
    }
    let mut k: usize = 0;
    while k < p.len()
        invariant
            i + p.len() <= s.len(),
            k <= p.len(),
            forall|j: int| 0 <= j < k ==> s@[i + j] == p@[j],
        decreases p.len() - k,
    {
        if s[i + k] != p[k] {
            assert(s@.subrange(i as int, i + p.len())[k as int] != p@[k as int]);
            return false;
        }
        k += 1;
    }
    assert(s@.subrange(i as int, i + p.len()) =~= p@);
    true
}

pub fn starts_with_exec(s: &Vec<char>, p: &Vec<char>) -> (b: bool)
    ensures
        b == starts_with(s@, p@),
{
    let b = matches_at(s, 0, p);
    proof {
        if p@.len() <= s@.len() {
            assert(s@.subrange(0, p@.len() as int) =~= s@.take(p@.len() as int));
        }
    }
    b
}

proof fn lemma_find_step(s: Seq<char>, p: Seq<char>, i: int)
    requires
        0 <= i <= s.len(),
        p.len() > 0,
    ensures
        s.skip(i).len() >= p.len() && s.subrange(i, i + p.len()) == p ==> find(s.skip(i), p) == Some(0int),
        s.skip(i).len() >= p.len() && s.subrange(i, i + p.len()) != p ==> find(s.skip(i), p) == match find(s.skip(i + 1), p) {
            Some(j) => Some(j + 1),
            None => None::<int>,
        },
        s.skip(i).len() < p.len() ==> find(s.skip(i), p) is None,
{
    if s.skip(i).len() >= p.len() {
        assert(s.skip(i).take(p.len() as int) =~= s.subrange(i, i + p.len()));
        assert(s.skip(i).drop_first() =~= s.skip(i + 1));
    }
}

/// `str::split` with a nonempty pattern.
pub fn split_exec(s: &Vec<char>, p: &Vec<char>) -> (r: Vec<Vec<char>>)
    requires
        p.len() > 0,
    ensures
        r@.len() == split(s@, p@).len(),
        forall|k: int| 0 <= k < r@.len() ==> #[trigger] r@[k]@ == split(s@, p@)[k],
{
    let mut r: Vec<Vec<char>> = Vec::new();
    let mut start: usize = 0;
    let mut i: usize = 0;
    let n = s.len();
    let pl = p.len();
    assert(s@.skip(0) =~= s@);
    assert(r@.map_values(|v: Vec<char>| v@) + split(s@, p@) =~= split(s@, p@));
    while i <= n && pl <= n - i
        invariant
            n == s.len(),
            pl == p.len() > 0,
            start <= i <= n,
            r@.map_values(|v: Vec<char>| v@) + split(s@.skip(start as int), p@) == split(s@, p@),
            find(s@.skip(start as int), p@) == match find(s@.skip(i as int), p@) {
                Some(j) => Some(j + (i - start)),
                None => None::<int>,
            },
        decreases n - i,
    {
        proof {
            lemma_find_step(s@, p@, i as int);
        }
        if matches_at(s, i, p) {
            let piece = slice_of(s, start, i);
            proof {
                let t = s@.skip(start as int);
                assert(find(t, p@) == Some((i - start) as int));
                lemma_find_bounds(t, p@);
                assert(t.take(i - start) =~= s@.subrange(start as int, i as int));
                assert(t.skip(i - start + pl) =~= s@.skip(i + pl));
                assert(split(t, p@) == seq![t.take(i - start)] + split(t.skip(i - start + pl), p@));
                assert(r@.push(piece).map_values(|v: Vec<char>| v@) =~= r@.map_values(|v: Vec<char>| v@).push(piece@));
                assert(r@.map_values(|v: Vec<char>| v@).push(piece@) + split(s@.skip(i + pl), p@)
                    =~= r@.map_values(|v: Vec<char>| v@) + (seq![piece@] + split(s@.skip(i + pl), p@)));
            }
            r.push(piece);
            start = i + pl;
            i = start;
        } else {
            i += 1;
        }
    }
    proof {
        if i <= n {
            lemma_find_step(s@, p@, i as int);
        } else {
            assert(false);
        }
    }
    let last = slice_of(s, start, n);
    proof {
        let t = s@.skip(start as int);
        assert(find(t, p@) is None);
        assert(t =~= s@.subrange(start as int, n as int));
        assert(r@.push(last).map_values(|v: Vec<char>| v@) =~= r@.map_values(|v: Vec<char>| v@).push(last@));
        assert(split(s@, p@) =~= r@.push(last).map_values(|v: Vec<char>| v@));
    }
    r.push(last);
    proof {
        assert forall|k: int| 0 <= k < r@.len() implies #[trigger] r@[k]@ == split(s@, p@)[k] by {
            assert(r@.map_values(|v: Vec<char>| v@)[k] == r@[k]@);
        }
    }
    r
}


/// `str::find` with a nonempty pattern.
pub fn find_exec(s: &Vec<char>, p: &Vec<char>) -> (r: Option<usize>)
    requires
        p.len() > 0,
    ensures
        match r {
            Some(i) => find(s@, p@) == Some(i as int),
            None => find(s@, p@) is None,
        },
{
    let n = s.len();
    let mut i: usize = 0;
    assert(s@.skip(0) =~= s@);
    while i <= n && p.len() <= n - i
        invariant
            n == s.len(),
            p.len() > 0,
            i <= n,
            find(s@, p@) == match find(s@.skip(i as int), p@) {
                Some(j) => Some(j + i),
                None => None::<int>,
            },
        decreases n - i,
    {
        proof {
            lemma_find_step(s@, p@, i as int);
        }
        if matches_at(s, i, p) {
            return Some(i);
        }
        i += 1;
    }
    proof {
        if i <= n {
            lemma_find_step(s@, p@, i as int);
        }
    }
    None
}

pub fn contains_exec(s: &Vec<char>, p: &Vec<char>) -> (b: bool)
    requires
        p.len() > 0,
    ensures
        b == contains(s@, p@),
{
    find_exec(s, p).is_some()
}

/// `str::lines`.
pub fn lines_exec(s: &Vec<char>) -> (r: Vec<Vec<char>>)
    ensures
        r@.len() == lines(s@).len(),
        forall|k: int| 0 <= k < r@.len() ==> #[trigger] r@[k]@ == lines(s@)[k],
{
    let nl = vec!['\n'];
    assert(nl@ =~= seq!['\n']);
    let pieces = split_exec(s, &nl);
    let ghost sp = split(s@, seq!['\n']);
    proof {
        lemma_split_nonempty(s@, seq!['\n']);
    }
    let np = pieces.len();
    let n = if pieces[np - 1].len() == 0 { np - 1 } else { np };
    let mut r: Vec<Vec<char>> = Vec::new();
    let mut k: usize = 0;
    while k < n
        invariant
            np == pieces@.len() == sp.len() > 0,
            sp == split(s@, seq!['\n']),
            n <= np,
            n == lines(s@).len(),
            k <= n,
            forall|j: int| 0 <= j < pieces@.len() ==> #[trigger] pieces@[j]@ == sp[j],
            r@.len() == k,
            forall|j: int| 0 <= j < k ==> #[trigger] r@[j]@ == lines(s@)[j],
        decreases n - k,
    {
        let piece = &pieces[k];
        let strip = k + 1 < np && piece.len() > 0 && piece[piece.len() - 1] == '\r';
        let item = if strip {
            slice_of(piece, 0, piece.len() - 1)
        } else {
            slice_of(piece, 0, piece.len())
        };
        proof {
            let lk = lines(s@)[k as int];
            assert(piece@ == sp[k as int]);
            assert(k < lines(s@).len());
            assert(lk == (if k + 1 < sp.len() { strip_cr(sp[k as int]) } else { sp[k as int] }));
            if strip {
                assert(piece@.subrange(0, piece@.len() - 1) =~= piece@.drop_last());
                assert(lk == strip_cr(sp[k as int]));
            } else {
                assert(piece@.subrange(0, piece@.len() as int) =~= piece@);
            }
            assert(item@ == lk);
        }
        r.push(item);
        k += 1;
    }
    r
}

pub proof fn lemma_split_nonempty(s: Seq<char>, p: Seq<char>)
    ensures
        split(s, p).len() > 0,
    decreases s.len(),
{
    if p.len() > 0 {
        if let Some(i) = find(s, p) {
            lemma_find_bounds(s, p);
            lemma_split_nonempty(s.skip(i + p.len()), p);
        }
    }
}

/// `char::is_whitespace`.
pub fn is_ws_exec(c: char) -> (b: bool)
    ensures
        b == is_ws(c),
{
    c == '\t' || c == '\n' || c == '\x0B' || c == '\x0C' || c == '\r' || c == ' ' || c == '\u{85}'
        || c == '\u{A0}' || c == '\u{1680}' || ('\u{2000}' <= c && c <= '\u{200A}') || c == '\u{2028}'
        || c == '\u{2029}' || c == '\u{202F}' || c == '\u{205F}' || c == '\u{3000}'
}

/// `str::trim`.
pub fn trim_exec(s: &Vec<char>) -> (r: Vec<char>)
    ensures
        r@ == trim(s@),
{
    let n = s.len();
    let mut lo: usize = 0;
    assert(s@.skip(0) =~= s@);
    while lo < n && is_ws_exec(s[lo])
        invariant
            n == s.len(),
            lo <= n,
            trim_start(s@) == trim_start(s@.skip(lo as int)),
        decreases n - lo,
    {
        assert(s@.skip(lo as int).drop_first() =~= s@.skip(lo + 1));
        lo += 1;
    }
    let ghost t = s@.skip(lo as int);
    assert(trim_start(s@) == t);
    let mut hi: usize = n;
    assert(t.take(n - lo) =~= t);
    while hi > lo && is_ws_exec(s[hi - 1])
        invariant
            n == s.len(),
            lo <= hi <= n,
            t == s@.skip(lo as int),
            trim_end(t) == trim_end(t.take(hi - lo)),
        decreases hi,
    {
        assert(t.take(hi - lo).drop_last() =~= t.take(hi - 1 - lo));
        hi -= 1;
    }
    assert(t.take(hi - lo) =~= s@.subrange(lo as int, hi as int));
    slice_of(s, lo, hi)
}

pub fn in_set(set: &Vec<char>, c: char) -> (b: bool)
    ensures
        b == set@.contains(c),
{
    let mut k: usize = 0;
    while k < set.len()
        invariant
            k <= set.len(),
            forall|j: int| 0 <= j < k ==> set@[j] != c,
        decreases set.len() - k,
    {
        if set[k] == c {
            assert(set@[k as int] == c);
            return true;
        }
        k += 1;
    }
    false
}

/// `str::trim_start_matches` with a set of characters.
pub fn trim_start_any_exec(s: &Vec<char>, set: &Vec<char>) -> (r: Vec<char>)
    ensures
        r@ == trim_start_any(s@, set@),
{
    let n = s.len();
    let mut lo: usize = 0;
    assert(s@.skip(0) =~= s@);
    while lo < n && in_set(set, s[lo])
        invariant
            n == s.len(),
            lo <= n,
            trim_start_any(s@, set@) == trim_start_any(s@.skip(lo as int), set@),
        decreases n - lo,
    {
        assert(s@.skip(lo as int).drop_first() =~= s@.skip(lo + 1));
        lo += 1;
    }
    assert(s@.skip(lo as int) =~= s@.subrange(lo as int, n as int));
    slice_of(s, lo, n)
}

/// `s.splitn(3, c)`.
pub fn splitn3_exec(s: &Vec<char>, c: char) -> (r: Vec<Vec<char>>)
    ensures
        r@.len() == splitn3(s@, c).len(),
        forall|k: int| 0 <= k < r@.len() ==> #[trigger] r@[k]@ == splitn3(s@, c)[k],
{
    let pat = vec![c];
    assert(pat@ =~= seq![c]);
    let mut r: Vec<Vec<char>> = Vec::new();
    match find_exec(s, &pat) {
        None => {
            r.push(slice_of(s, 0, s.len()));
            assert(s@.subrange(0, s@.len() as int) =~= s@);
        },
        Some(i) => {
            proof { lemma_find_bounds(s@, seq![c]); }
            let a = slice_of(s, 0, i);
            let rest = slice_of(s, i + 1, s.len());
            assert(a@ =~= s@.take(i as int));
            assert(rest@ =~= s@.skip(i + 1));
            r.push(a);
            match find_exec(&rest, &pat) {
                None => {
                    r.push(rest);
                },
                Some(j) => {
                    proof { lemma_find_bounds(rest@, seq![c]); }
                    let b = slice_of(&rest, 0, j);
                    let tail = slice_of(&rest, j + 1, rest.len());
                    assert(b@ =~= rest@.take(j as int));
                    assert(tail@ =~= rest@.skip(j + 1));
                    r.push(b);
                    r.push(tail);
                },
            }
        },
    }
    r
}

/// `parts.join(sep)` for string slices.
pub fn join_strs(parts: &[&str], sep: &str) -> (r: String)
    ensures
        r@ == join(parts@.map_values(|a: &str| a@), sep@),
{
    let ghost pv = parts@.map_values(|a: &str| a@);
    let mut r = String::new();
    let mut k: usize = 0;
    while k < parts.len()
        invariant
            k <= parts@.len(),
            pv == parts@.map_values(|a: &str| a@),
            r@ == join(pv.take(k as int), sep@),
        decreases parts.len() - k,
    {
        proof {
            assert(pv.take(k + 1).drop_last() =~= pv.take(k as int));
        }
        if k > 0 {
            r.append(sep);
        }
        r.append(parts[k]);
        proof {
            if k == 0 {
                assert(r@ =~= pv.take(1)[0]);
            }
        }
        k += 1;
    }
    assert(pv.take(parts@.len() as int) =~= pv);
    r
}

fn digit_of(d: u64) -> (c: char)
    requires
        d < 10,
    ensures
        c == digit_char(d as int),
{
    if d == 0 { '0' } else if d == 1 { '1' } else if d == 2 { '2' } else if d == 3 { '3' }
    else if d == 4 { '4' } else if d == 5 { '5' } else if d == 6 { '6' } else if d == 7 { '7' }
    else if d == 8 { '8' } else { '9' }
}

/// The decimal digits of `n`.
pub fn decimal_chars(n: u64) -> (v: Vec<char>)
    ensures
        v@ == decimal(n as nat),
    decreases n,
{
    if n < 10 {
        let mut v = Vec::new();
        v.push(digit_of(n));
        assert(v@ =~= seq![digit_char(n as int)]);
        v
    } else {
        let mut v = decimal_chars(n / 10);
        v.push(digit_of(n % 10));
        v
    }
}

/// `n.to_string()` for an unsigned integer.
pub fn decimal_string(n: u64) -> (s: String)
    ensures
        s@ == decimal(n as nat),
{
    let v = decimal_chars(n);
    string_of_all(&v)
}

proof fn lemma_digits_value_prefix(s: Seq<char>, k: int)
    requires
        0 <= k <= s.len(),
        forall|i: int| 0 <= i < s.len() ==> is_digit(#[trigger] s[i]),
    ensures
        digits_value(s.take(k)) <= digits_value(s),
    decreases s.len() - k,
{
    if k < s.len() {
        lemma_digits_value_prefix(s, k + 1);
        assert(s.take(k + 1).drop_last() =~= s.take(k));
    } else {
        assert(s.take(k) =~= s);
    }
}

/// `s.parse::<u32>().ok()`.
pub fn parse_u32_exec(s: &Vec<char>) -> (r: Option<u32>)
    ensures
        r == parse_u32(s@),
{
    let n = s.len();
    let start: usize = if n > 0 && s[0] == '+' { 1 } else { 0 };
    let ghost d = unsigned_part(s@);
    assert(d =~= s@.skip(start as int));
    if start == n {
        return None;
    }
    let mut k: usize = start;
    while k < n
        invariant
            n == s.len(),
            start <= k <= n,
            d == s@.skip(start as int),
            d == unsigned_part(s@),
            forall|j: int| 0 <= j < k - start ==> is_digit(#[trigger] d[j]),
        decreases n - k,
    {
        assert(d[k - start] == s@[k as int]);
        if !('0' <= s[k] && s[k] <= '9') {
            assert(!is_digit(d[k - start]));
            assert(!all_digits(d));
            return None;
        }
        k += 1;
    }
    let mut val: u64 = 0;
    k = start;
    assert(d.take(0) =~= seq![]);
    while k < n
        invariant
            n == s.len(),
            start <= k <= n,
            d == s@.skip(start as int),
            d == unsigned_part(s@),
            forall|j: int| 0 <= j < d.len() ==> is_digit(#[trigger] d[j]),
            val == digits_value(d.take(k - start)),
            val <= u32::MAX,
        decreases n - k,
    {
        assert(d[k - start] == s@[k as int]);
        assert(is_digit(d[k - start]));
        let dg = ((s[k] as u32) - ('0' as u32)) as u64;
        assert(d.take(k + 1 - start).drop_last() =~= d.take(k - start));
        assert(d.take(k + 1 - start).last() == s@[k as int]);
        let next = val * 10 + dg;
        if next > 0xFFFF_FFFF {
            proof {
                lemma_digits_value_prefix(d, k + 1 - start);
            }
            return None;
        }
        val = next;
        k += 1;
    }
    assert(d.take(n - start) =~= d);
    Some(val as u32)
}

// ---------------------------------------------------------------------------
// Splitting and joining undo each other
// ---------------------------------------------------------------------------

/// `p` occurs nowhere in `s`.
proof fn lemma_find_none(s: Seq<char>, p: Seq<char>)
    requires
        p.len() > 0,
        find(s, p) is None,
    ensures
        forall|i: int| 0 <= i && i + p.len() <= s.len() ==> #[trigger] s.subrange(i, i + p.len()) != p,
    decreases s.len(),
{
    if s.len() >= p.len() {
        lemma_find_none(s.drop_first(), p);
        assert forall|i: int| 0 <= i && i + p.len() <= s.len() implies #[trigger] s.subrange(i, i + p.len()) != p by {
            if i == 0 {
                assert(s.subrange(0, p.len() as int) =~= s.take(p.len() as int));
            } else {
                assert(s.subrange(i, i + p.len()) =~= s.drop_first().subrange(i - 1, i - 1 + p.len()));
            }
        }
    }
}

/// The leftmost occurrence of `p` in `s` is at `k`.
proof fn lemma_find_first(s: Seq<char>, p: Seq<char>, k: int)
    requires
        p.len() > 0,
        0 <= k,
        k + p.len() <= s.len(),
        s.subrange(k, k + p.len()) == p,
        forall|i: int| 0 <= i < k ==> #[trigger] s.subrange(i, i + p.len()) != p,
    ensures
        find(s, p) == Some(k),
    decreases k,
{
    if k == 0 {
        assert(s.take(p.len() as int) =~= s.subrange(0, p.len() as int));
    } else {
        assert(s.subrange(0int, 0int + p.len()) != p);
        assert(s.take(p.len() as int) =~= s.subrange(0int, 0int + p.len()));
        let t = s.drop_first();
        assert(t.subrange(k - 1, k - 1 + p.len()) =~= s.subrange(k, k + p.len()));
        assert forall|i: int| 0 <= i < k - 1 implies #[trigger] t.subrange(i, i + p.len()) != p by {
            assert(t.subrange(i, i + p.len()) =~= s.subrange(i + 1, i + 1 + p.len()));
        }
        lemma_find_first(t, p, k - 1);
    }
}

/// No proper suffix of `p` is also a prefix of it, so an occurrence of `p`
/// cannot start inside a piece and run into the separator after it.
pub open spec fn unbordered(p: Seq<char>) -> bool {
    forall|j: int| 0 < j < p.len() ==> #[trigger] p.subrange(j, p.len() as int) != p.take(p.len() - j)
}

proof fn lemma_find_after(a: Seq<char>, p: Seq<char>, b: Seq<char>)
    requires
        p.len() > 0,
        unbordered(p),
        !contains(a, p),
    ensures
        find(a + p + b, p) == Some(a.len() as int),
{
    let s = a + p + b;
    let n = a.len() as int;
    let m = p.len() as int;
    lemma_find_none(a, p);
    assert(s.subrange(n, n + m) =~= p);
    assert forall|i: int| 0 <= i < n implies #[trigger] s.subrange(i, i + m) != p by {
        if i + m <= n {
            assert(s.subrange(i, i + m) =~= a.subrange(i, i + m));
        } else {
            let j = n - i;
            if s.subrange(i, i + m) == p {
                assert(p.subrange(j, m) =~= p.take(m - j)) by {
                    assert forall|t: int| 0 <= t < m - j implies p.subrange(j, m)[t] == p.take(m - j)[t] by {
                        assert(p[j + t] == s.subrange(i, i + m)[j + t]);
                        assert(s.subrange(i, i + m)[j + t] == s[n + t]);
                        assert(s[n + t] == p[t]);
                    }
                }
                assert(p.subrange(j, p.len() as int) != p.take(p.len() - j));
            }
        }
    }
    lemma_find_first(s, p, n);
}

/// Joining with a piece in front.
pub proof fn lemma_join_front(a: Seq<char>, rest: Seq<Seq<char>>, sep: Seq<char>)
    requires
        rest.len() > 0,
    ensures
        join(seq![a] + rest, sep) == a + sep + join(rest, sep),
    decreases rest.len(),
{
    let s = seq![a] + rest;
    if rest.len() == 1 {
        assert(s.drop_last() =~= seq![a]);
        assert(join(seq![a], sep) == a);
    } else {
        lemma_join_front(a, rest.drop_last(), sep);
        assert(s.drop_last() =~= seq![a] + rest.drop_last());
        assert(join(s, sep) =~= a + sep + join(rest, sep));
    }
}

/// Splitting joined pieces gives the pieces back, when none of them holds
/// the separator and the separator cannot overlap itself.
pub proof fn lemma_split_join(parts: Seq<Seq<char>>, p: Seq<char>)
    requires
        parts.len() > 0,
        p.len() > 0,
        unbordered(p),
        forall|k: int| 0 <= k < parts.len() ==> !contains(#[trigger] parts[k], p),
    ensures
        split(join(parts, p), p) == parts,
    decreases parts.len(),
{
    if parts.len() == 1 {
        assert(!contains(parts[0], p));
        assert(split(parts[0], p) =~= parts);
    } else {
        let a = parts[0];
        let rest = parts.drop_first();
        assert(parts =~= seq![a] + rest);
        lemma_join_front(a, rest, p);
        assert(!contains(parts[0], p));
        assert forall|k: int| 0 <= k < rest.len() implies !contains(#[trigger] rest[k], p) by {
            assert(rest[k] == parts[k + 1]);
        }
        lemma_split_join(rest, p);
        let s = a + p + join(rest, p);
        lemma_find_after(a, p, join(rest, p));
        assert(s.take(a.len() as int) =~= a);
        assert(s.skip((a.len() + p.len()) as int) =~= join(rest, p));
        assert(split(s, p) =~= seq![a] + rest);
    }
}

/// Joining the pieces of a split gives the text back.
pub proof fn lemma_join_split(s: Seq<char>, p: Seq<char>)
    requires
        p.len() > 0,
    ensures
        join(split(s, p), p) == s,
    decreases s.len(),
{
    match find(s, p) {
        Some(i) => {
            lemma_find_bounds(s, p);
            let rest = s.skip(i + p.len());
            lemma_join_split(rest, p);
            lemma_split_nonempty(rest, p);
            lemma_join_front(s.take(i), split(rest, p), p);
            assert(s =~= s.take(i) + s.subrange(i, i + p.len()) + rest);
        },
        None => {},
    }
}

/// A single character that does not occur in `s` is not found in it.
pub proof fn lemma_char_not_found(s: Seq<char>, c: char)
    requires
        !s.contains(c),
    ensures
        !contains(s, seq![c]),
{
    lemma_find_bounds(s, seq![c]);
    if let Some(i) = find(s, seq![c]) {
        assert(s.subrange(i, i + 1)[0] == s[i]);
        assert(s[i] == c);
    }
}

/// A character that no piece and not the separator holds is not in the
/// joined text.
pub proof fn lemma_join_char_free(parts: Seq<Seq<char>>, sep: Seq<char>, c: char)
    requires
        !sep.contains(c),
        forall|k: int| 0 <= k < parts.len() ==> !(#[trigger] parts[k]).contains(c),
    ensures
        !join(parts, sep).contains(c),
    decreases parts.len(),
{
    if parts.len() == 1 {
        assert(!parts[0].contains(c));
    } else if parts.len() > 1 {
        lemma_join_char_free(parts.drop_last(), sep, c);
        let j = join(parts.drop_last(), sep);
        let l = parts.last();
        assert(!parts[parts.len() - 1].contains(c));
        assert forall|i: int| 0 <= i < (j + sep + l).len() implies (j + sep + l)[i] != c by {
            if i < j.len() {
                assert((j + sep + l)[i] == j[i]);
            } else if i < j.len() + sep.len() {
                assert((j + sep + l)[i] == sep[i - j.len()]);
            } else {
                assert((j + sep + l)[i] == l[i - j.len() - sep.len()]);
            }
        }
    }
}

/// The pieces of a split hold no character that the text does not.
pub proof fn lemma_split_char_free(s: Seq<char>, p: Seq<char>, c: char)
    requires
        !s.contains(c),
    ensures
        forall|k: int| 0 <= k < split(s, p).len() ==> !(#[trigger] split(s, p)[k]).contains(c),
    decreases s.len(),
{
    if p.len() > 0 {
        if let Some(i) = find(s, p) {
            lemma_find_bounds(s, p);
            let rest = s.skip(i + p.len());
            lemma_split_char_free(rest, p, c);
            assert forall|k: int| 0 <= k < split(s, p).len() implies !(#[trigger] split(s, p)[k]).contains(c) by {
                if k == 0 {
                    assert forall|t: int| 0 <= t < s.take(i).len() implies s.take(i)[t] != c by {
                        assert(s.take(i)[t] == s[t]);
                    }
                } else {
                    assert(split(s, p)[k] == split(rest, p)[k - 1]);
                }
            }
        }
    }
}

/// Text that does not end with the separator character ends with a
/// non-empty piece.
pub proof fn lemma_split_last_nonempty(s: Seq<char>, c: char)
    requires
        s.len() > 0,
        s.last() != c,
    ensures
        split(s, seq![c]).len() > 0,
        split(s, seq![c]).last().len() > 0,
    decreases s.len(),
{
    lemma_split_nonempty(s, seq![c]);
    if let Some(i) = find(s, seq![c]) {
        lemma_find_bounds(s, seq![c]);
        let rest = s.skip(i + 1);
        assert(s.subrange(i, i + 1)[0] == s[i]);
        if rest.len() == 0 {
            assert(s.last() == s[i]);
        } else {
            assert(rest.last() == s.last());
            lemma_split_last_nonempty(rest, c);
        }
    }
}

/// `str::lines` of text with no `'\r'` that does not end with a newline is
/// its split at newlines, unless the text is empty.
pub proof fn lemma_lines_are_split(s: Seq<char>)
    requires
        !s.contains('\r'),
        s.len() > 0,
        s.last() != '\n',
    ensures
        lines(s) == split(s, seq!['\n']),
{
    let pieces = split(s, seq!['\n']);
    lemma_split_last_nonempty(s, '\n');
    lemma_split_char_free(s, seq!['\n'], '\r');
    assert forall|i: int| 0 <= i < pieces.len() implies #[trigger] strip_cr(pieces[i]) == pieces[i] by {
        if pieces[i].len() > 0 {
            assert(!pieces[i].contains('\r'));
            assert(pieces[i].last() == pieces[i][pieces[i].len() - 1]);
        }
    }
    assert(lines(s) =~= pieces);
}

} // verus!
