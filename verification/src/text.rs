//! Character-sequence helpers used by the request parser and the response
//! renderer: searching, splitting, trimming and decimal rendering, each with
//! the sequence function that states what it computes.
use vstd::prelude::*;

verus! {

// ---------------------------------------------------------------------------
// Conversions between strings and character vectors
// ---------------------------------------------------------------------------

/// Collects the characters of `s` into a vector.
pub fn chars_of(s: &str) -> (out: Vec<char>)
    ensures
        out@ == s@,
{
    let mut out: Vec<char> = Vec::new();
    for c in it: s.chars()
        invariant
            out@ == it.seq().take(it.index() as int),
            it.seq() == s@,
    {
        out.push(c);
    }
    out
}

/// Builds a `String` from characters (std's `FromIterator<&char> for String`,
/// which pushes each character in order).
#[verifier::external_body]
pub(crate) fn string_of(chars: &Vec<char>) -> (out: String)
    ensures
        out@ == chars@,
{
    chars.iter().collect::<String>()
}

/// Appends the characters of `s` to `out`.
pub fn push_str(out: &mut Vec<char>, s: &str)
    ensures
        final(out)@ == old(out)@ + s@,
{
    let cs = chars_of(s);
    push_chars(out, &cs);
}

/// Appends `cs` to `out`.
pub fn push_chars(out: &mut Vec<char>, cs: &Vec<char>)
    ensures
        final(out)@ == old(out)@ + cs@,
{
    let ghost start = out@;
    let mut i: usize = 0;
    while i < cs.len()
        invariant
            i <= cs.len(),
            out@ == start + cs@.take(i as int),
        decreases cs.len() - i,
    {
        out.push(cs[i]);
        i = i + 1;
        assert(out@ =~= start + cs@.take(i as int));
    }
    assert(cs@.take(i as int) =~= cs@);
}

/// The characters of `s` from index `lo` up to (not including) `hi`.
pub fn sub_chars(s: &Vec<char>, lo: usize, hi: usize) -> (out: Vec<char>)
    requires
        lo <= hi <= s.len(),
    ensures
        out@ == s@.subrange(lo as int, hi as int),
{
    let mut out: Vec<char> = Vec::new();
    let mut i: usize = lo;
    while i < hi
        invariant
            lo <= i <= hi <= s.len(),
            out@ == s@.subrange(lo as int, i as int),
        decreases hi - i,
    {
        out.push(s[i]);
        i = i + 1;
        assert(out@ =~= s@.subrange(lo as int, i as int));
    }
    out
}

/// Whether two character vectors hold the same characters.
pub fn chars_eq(a: &Vec<char>, b: &Vec<char>) -> (eq: bool)
    ensures
        eq == (a@ == b@),
{
    if a.len() != b.len() {
        return false;
    }
    let mut i: usize = 0;
    while i < a.len()
        invariant
            a.len() == b.len(),
            i <= a.len(),
            forall|k: int| 0 <= k < i ==> a@[k] == b@[k],
        decreases a.len() - i,
    {
        if a[i] != b[i] {
            return false;
        }
        i = i + 1;
    }
    assert(a@ =~= b@);
    true
}

// ---------------------------------------------------------------------------
// Last occurrence of a character, and the last segment of a path
// ---------------------------------------------------------------------------

/// Index of the last occurrence of `c` in `s`, or -1 when `c` does not occur.
pub open spec fn last_index_of(s: Seq<char>, c: char) -> int
    decreases s.len(),
{
    if s.len() == 0 {
        -1
    } else if s.last() == c {
        s.len() - 1
    } else {
        last_index_of(s.drop_last(), c)
    }
}

/// What `last_index_of` returns: -1 and no occurrence, or the index of an
/// occurrence after which `c` does not occur.
pub proof fn lemma_last_index_of(s: Seq<char>, c: char)
    ensures
        -1 <= last_index_of(s, c) < s.len(),
        last_index_of(s, c) >= 0 ==> s[last_index_of(s, c)] == c,
        forall|k: int| last_index_of(s, c) < k < s.len() ==> s[k] != c,
    decreases s.len(),
{
    if s.len() > 0 && s.last() != c {
        lemma_last_index_of(s.drop_last(), c);
        assert forall|k: int| 0 <= k < s.len() - 1 implies s.drop_last()[k] == s[k] by {}
    }
}

/// The segment of `path` after its last `/`; the whole of `path` when it
/// holds no `/` (what `path.rsplitn(2, "/").next()` yields).
pub open spec fn last_segment(path: Seq<char>) -> Seq<char> {
    path.subrange(last_index_of(path, '/') + 1, path.len() as int)
}

/// The index at which the last segment of `s` starts.
pub fn last_segment_start(s: &Vec<char>) -> (start: usize)
    ensures
        start == last_index_of(s@, '/') + 1,
        start <= s.len(),
{
    let mut i: usize = s.len();
    assert(s@.take(s.len() as int) =~= s@);
    while i > 0
        invariant
            i <= s.len(),
            last_index_of(s@, '/') == last_index_of(s@.take(i as int), '/'),
        decreases i,
    {
        assert(s@.take(i as int).drop_last() =~= s@.take(i - 1));
        if s[i - 1] == '/' {
            return i;
        }
        i = i - 1;
    }
    assert(s@.take(0) =~= Seq::<char>::empty());
    0
}

// ---------------------------------------------------------------------------
// Searching for and splitting at a separator
// ---------------------------------------------------------------------------

/// `sep` occurs in `s` at index `i`.
pub open spec fn match_at(s: Seq<char>, sep: Seq<char>, i: int) -> bool {
    0 <= i && i + sep.len() <= s.len() && s.subrange(i, i + sep.len()) == sep
}

/// The first index `>= i` at which `sep` occurs in `s`, or -1 when there is
/// none.
pub open spec fn next_match(s: Seq<char>, sep: Seq<char>, i: int) -> int
    decreases s.len() - i,
{
    if i < 0 || i >= s.len() || i + sep.len() > s.len() {
        -1
    } else if match_at(s, sep, i) {
        i
    } else {
        next_match(s, sep, i + 1)
    }
}

/// `s` contains `sep` (for a non-empty `sep`).
pub open spec fn contains(s: Seq<char>, sep: Seq<char>) -> bool {
    next_match(s, sep, 0) >= 0
}

/// What `next_match` returns: -1 when no occurrence starts at or after `i`,
/// else the first such occurrence.
pub proof fn lemma_next_match(s: Seq<char>, sep: Seq<char>, i: int)
    requires
        sep.len() > 0,
        0 <= i,
    ensures
        next_match(s, sep, i) == -1 || (i <= next_match(s, sep, i) && match_at(
            s,
            sep,
            next_match(s, sep, i),
        )),
        forall|k: int|
            i <= k && (next_match(s, sep, i) == -1 || k < next_match(s, sep, i)) ==> !match_at(
                s,
                sep,
                k,
            ),
    decreases s.len() - i,
{
    if i >= s.len() || i + sep.len() > s.len() {
    } else if match_at(s, sep, i) {
    } else {
        lemma_next_match(s, sep, i + 1);
    }
}

/// The pieces of `s` from index `start` on, cut at each occurrence of `sep`
/// found from left to right (what `str::split` with a string pattern yields).
pub open spec fn split_from(s: Seq<char>, sep: Seq<char>, start: int) -> Seq<Seq<char>>
    decreases s.len() - start,
{
    if sep.len() == 0 || start < 0 || start > s.len() {
        Seq::empty()
    } else {
        let j = next_match(s, sep, start);
        if j < 0 {
            seq![s.subrange(start, s.len() as int)]
        } else {
            proof {
                lemma_next_match(s, sep, start);
            }
            seq![s.subrange(start, j)] + split_from(s, sep, j + sep.len())
        }
    }
}

/// The pieces of `s` cut at each occurrence of `sep`.
pub open spec fn split_by(s: Seq<char>, sep: Seq<char>) -> Seq<Seq<char>> {
    split_from(s, sep, 0)
}

/// Splitting yields at least one piece.
pub proof fn lemma_split_from_nonempty(s: Seq<char>, sep: Seq<char>, start: int)
    requires
        sep.len() > 0,
        0 <= start <= s.len(),
    ensures
        split_from(s, sep, start).len() >= 1,
{
    let j = next_match(s, sep, start);
    if j >= 0 {
        lemma_next_match(s, sep, start);
    }
}

/// Whether `sep` occurs in `s` at index `i`.
pub fn matches_at(s: &Vec<char>, sep: &Vec<char>, i: usize) -> (m: bool)
    ensures
        m == match_at(s@, sep@, i as int),
{
    if sep.len() > s.len() || i > s.len() - sep.len() {
        return false;
    }
    let mut k: usize = 0;
    while k < sep.len()
        invariant
            i + sep.len() <= s.len(),
            k <= sep.len(),
            forall|t: int| 0 <= t < k ==> s@[i + t] == sep@[t],
        decreases sep.len() - k,
    {
        if s[i + k] != sep[k] {
            assert(s@.subrange(i as int, i + sep.len())[k as int] != sep@[k as int]);
            return false;
        }
        k = k + 1;
    }
    assert(s@.subrange(i as int, i + sep.len()) =~= sep@);
    true
}

/// The first index at or after `from` at which `sep` occurs in `s`.
pub fn find_from(s: &Vec<char>, sep: &Vec<char>, from: usize) -> (found: Option<usize>)
    requires
        sep.len() > 0,
    ensures
        match found {
            Some(j) => j as int == next_match(s@, sep@, from as int),
            None => next_match(s@, sep@, from as int) == -1,
        },
{
    if from >= s.len() || sep.len() > s.len() {
        return None;
    }
    let mut i: usize = from;
    while i < s.len() && sep.len() <= s.len() - i
        invariant
            sep.len() <= s.len(),
            from <= i,
            i <= s.len(),
            from < s.len(),
            next_match(s@, sep@, from as int) == next_match(s@, sep@, i as int),
        decreases s.len() - i,
    {
        if matches_at(s, sep, i) {
            return Some(i);
        }
        i = i + 1;
    }
    None
}

/// Whether `sep` occurs in `s`.
pub fn contains_chars(s: &Vec<char>, sep: &Vec<char>) -> (c: bool)
    requires
        sep.len() > 0,
    ensures
        c == contains(s@, sep@),
{
    find_from(s, sep, 0).is_some()
}

/// Splits `s` at each occurrence of `sep`.
pub fn split_chars(s: &Vec<char>, sep: &Vec<char>) -> (parts: Vec<Vec<char>>)
    requires
        sep.len() > 0,
    ensures
        parts@.len() == split_by(s@, sep@).len(),
        forall|k: int| 0 <= k < parts@.len() ==> #[trigger] parts@[k]@ == split_by(s@, sep@)[k],
{
    let mut parts: Vec<Vec<char>> = Vec::new();
    let mut start: usize = 0;
    let ghost views: Seq<Seq<char>> = Seq::empty();
    loop
        invariant
            sep.len() > 0,
            start <= s.len(),
            views.len() == parts@.len(),
            forall|k: int| 0 <= k < parts@.len() ==> #[trigger] parts@[k]@ == views[k],
            views + split_from(s@, sep@, start as int) == split_by(s@, sep@),
        decreases s.len() - start,
    {
        match find_from(s, sep, start) {
            None => {
                let piece = sub_chars(s, start, s.len());
                proof {
                    assert(split_from(s@, sep@, start as int) =~= seq![piece@]);
                    views = views.push(piece@);
                }
                parts.push(piece);
                assert(views =~= split_by(s@, sep@));
                return parts;
            },
            Some(j) => {
                proof {
                    lemma_next_match(s@, sep@, start as int);
                }
                let piece = sub_chars(s, start, j);
                let ghost rest = split_from(s@, sep@, j + sep.len());
                proof {
                    assert(split_from(s@, sep@, start as int) == seq![piece@] + rest);
                    assert(views + split_from(s@, sep@, start as int) =~= views.push(piece@)
                        + rest);
                    views = views.push(piece@);
                }
                parts.push(piece);
                start = j + sep.len();
            },
        }
    }
}

/// The pieces joined back together, with `sep` between neighbours.
pub open spec fn join(parts: Seq<Seq<char>>, sep: Seq<char>) -> Seq<char>
    decreases parts.len(),
{
    if parts.len() == 0 {
        Seq::empty()
    } else if parts.len() == 1 {
        parts[0]
    } else {
        parts[0] + sep + join(parts.drop_first(), sep)
    }
}

/// Splitting loses nothing and cuts at every occurrence: joining the pieces
/// of `s` with `sep` gives back `s`, and no piece holds `sep`.
pub proof fn lemma_split_join(s: Seq<char>, sep: Seq<char>, start: int)
    requires
        sep.len() > 0,
        0 <= start <= s.len(),
    ensures
        join(split_from(s, sep, start), sep) == s.subrange(start, s.len() as int),
        forall|k: int|
            0 <= k < split_from(s, sep, start).len() ==> !contains(
                #[trigger] split_from(s, sep, start)[k],
                sep,
            ),
    decreases s.len() - start,
{
    lemma_next_match(s, sep, start);
    let j = next_match(s, sep, start);
    let parts = split_from(s, sep, start);
    if j < 0 {
        lemma_no_match_in_piece(s, sep, start, s.len() as int);
    } else {
        let rest = split_from(s, sep, j + sep.len());
        lemma_split_join(s, sep, j + sep.len());
        lemma_split_from_nonempty(s, sep, j + sep.len());
        lemma_no_match_in_piece(s, sep, start, j);
        assert(parts.drop_first() =~= rest);
        assert(s.subrange(j, j + sep.len()) == sep);
        assert(s.subrange(start, s.len() as int) =~= s.subrange(start, j) + sep + s.subrange(
            j + sep.len(),
            s.len() as int,
        ));
        assert forall|k: int| 0 <= k < parts.len() implies !contains(
            #[trigger] parts[k],
            sep,
        ) by {
            if k > 0 {
                assert(parts[k] == rest[k - 1]);
            }
        }
    }
}

/// A piece `s[start..end]` in which no occurrence of `sep` starts holds no
/// `sep`.
proof fn lemma_no_match_in_piece(s: Seq<char>, sep: Seq<char>, start: int, end: int)
    requires
        sep.len() > 0,
        0 <= start <= end <= s.len(),
        forall|k: int| start <= k && k + sep.len() <= end ==> !match_at(s, sep, k),
    ensures
        !contains(s.subrange(start, end), sep),
{
    let p = s.subrange(start, end);
    lemma_next_match(p, sep, 0);
    let t = next_match(p, sep, 0);
    if t >= 0 {
        assert(s.subrange(start + t, start + t + sep.len()) =~= p.subrange(t, t + sep.len()));
        assert(match_at(s, sep, start + t));
    }
}

/// The first occurrence at or after `i` is pinned down by being one with none
/// before it.
pub proof fn lemma_next_match_exact(s: Seq<char>, sep: Seq<char>, i: int, j: int)
    requires
        sep.len() > 0,
        0 <= i <= j,
        match_at(s, sep, j),
        forall|k: int| i <= k < j ==> !match_at(s, sep, k),
    ensures
        next_match(s, sep, i) == j,
{
    lemma_next_match(s, sep, i);
    let r = next_match(s, sep, i);
    if r == -1 {
        assert(!match_at(s, sep, j));
    } else if r < j {
        assert(!match_at(s, sep, r));
    } else if r > j {
        assert(!match_at(s, sep, j));
    }
}

/// With no occurrence from `i` on, splitting from `i` yields the rest whole.
pub proof fn lemma_split_no_match(s: Seq<char>, sep: Seq<char>, i: int)
    requires
        sep.len() > 0,
        0 <= i <= s.len(),
        forall|k: int| i <= k ==> !match_at(s, sep, k),
    ensures
        split_from(s, sep, i) == seq![s.subrange(i, s.len() as int)],
{
    lemma_next_match(s, sep, i);
}

/// A text without `sep` has no occurrence of it anywhere.
pub proof fn lemma_not_contains(s: Seq<char>, sep: Seq<char>)
    requires
        sep.len() > 0,
        !contains(s, sep),
    ensures
        forall|k: int| #![trigger match_at(s, sep, k)] !match_at(s, sep, k),
{
    lemma_next_match(s, sep, 0);
    assert forall|k: int| !match_at(s, sep, k) by {
        if k < 0 {
        }
    }
}

/// Occurrences in `p + s` past `p` are the occurrences in `s`, shifted.
pub proof fn lemma_match_shift(p: Seq<char>, s: Seq<char>, sep: Seq<char>, k: int)
    requires
        0 <= k,
    ensures
        match_at(p + s, sep, p.len() + k) == match_at(s, sep, k),
{
    let t = p + s;
    if k + sep.len() <= s.len() {
        assert(t.subrange(p.len() + k, p.len() + k + sep.len()) =~= s.subrange(k, k + sep.len()));
    }
}

/// Occurrences in `s + t` that end within `s` are occurrences in `s`.
pub proof fn lemma_match_prefix(s: Seq<char>, t: Seq<char>, sep: Seq<char>, k: int)
    requires
        0 <= k,
        k + sep.len() <= s.len(),
    ensures
        match_at(s + t, sep, k) == match_at(s, sep, k),
{
    assert((s + t).subrange(k, k + sep.len()) =~= s.subrange(k, k + sep.len()));
}

/// Splitting `p + s` from past `p` is splitting `s`.
pub proof fn lemma_split_shift(p: Seq<char>, s: Seq<char>, sep: Seq<char>, i: int)
    requires
        sep.len() > 0,
        0 <= i <= s.len(),
    ensures
        split_from(p + s, sep, p.len() + i) == split_from(s, sep, i),
    decreases s.len() - i,
{
    let t = p + s;
    lemma_next_match(s, sep, i);
    lemma_next_match(t, sep, p.len() + i);
    let j = next_match(s, sep, i);
    assert forall|k: int| i <= k implies match_at(t, sep, p.len() + k) == match_at(s, sep, k) by {
        lemma_match_shift(p, s, sep, k);
    }
    if j < 0 {
        assert forall|k: int| p.len() + i <= k implies !match_at(t, sep, k) by {
            lemma_match_shift(p, s, sep, k - p.len());
        }
        lemma_split_no_match(t, sep, p.len() + i);
        assert(t.subrange(p.len() + i, t.len() as int) =~= s.subrange(i, s.len() as int));
    } else {
        assert forall|k: int| p.len() + i <= k < p.len() + j implies !match_at(t, sep, k) by {
            lemma_match_shift(p, s, sep, k - p.len());
        }
        lemma_match_shift(p, s, sep, j);
        lemma_next_match_exact(t, sep, p.len() + i, p.len() + j);
        assert(t.subrange(p.len() + i, p.len() + j) =~= s.subrange(i, j));
        lemma_split_shift(p, s, sep, j + sep.len());
    }
}

/// The line separator `\r\n`.
pub open spec fn crlf() -> Seq<char> {
    seq!['\r', '\n']
}

/// The separator of head and body, a blank line: `\r\n\r\n`.
pub open spec fn blank_line() -> Seq<char> {
    seq!['\r', '\n', '\r', '\n']
}

/// Text that does not hold the character `c`, then `c`, then more text,
/// splits at `c` into the first text followed by the pieces of the rest.
pub proof fn lemma_split_at_char(x: Seq<char>, y: Seq<char>, c: char)
    requires
        forall|k: int| 0 <= k < x.len() ==> x[k] != c,
    ensures
        split_by(x + seq![c] + y, seq![c]) == seq![x] + split_by(y, seq![c]),
        split_by(y, seq![c]).len() >= 1,
{
    let sep = seq![c];
    let s = x + sep + y;
    assert forall|k: int| 0 <= k < x.len() implies !match_at(s, sep, k) by {
        if match_at(s, sep, k) {
            assert(s.subrange(k, k + 1)[0] == s[k]);
        }
    }
    assert(s.subrange(x.len() as int, x.len() + 1int) =~= sep);
    lemma_next_match_exact(s, sep, 0, x.len() as int);
    assert(s == (x + sep) + y);
    lemma_split_shift(x + sep, y, sep, 0);
    lemma_split_from_nonempty(y, sep, 0);
    assert(s.subrange(0, x.len() as int) =~= x);
    assert(split_by(s, sep) =~= seq![x] + split_by(y, sep));
}

/// The separators as string literals.
pub proof fn lemma_crlf()
    ensures
        "\r\n"@ == crlf(),
        "\r\n\r\n"@ == blank_line(),
{
    reveal_strlit("\r\n");
    reveal_strlit("\r\n\r\n");
    assert("\r\n"@ =~= seq!['\r', '\n']);
    assert("\r\n\r\n"@ =~= seq!['\r', '\n', '\r', '\n']);
}

/// The start of a joined text is its first piece, followed by `\r` when more
/// pieces come.
proof fn lemma_join_head(xs: Seq<Seq<char>>)
    requires
        xs.len() >= 1,
    ensures
        join(xs, crlf()).len() >= xs[0].len(),
        forall|k: int| 0 <= k < xs[0].len() ==> #[trigger] join(xs, crlf())[k] == xs[0][k],
        xs.len() >= 2 ==> join(xs, crlf()).len() > xs[0].len() && join(
            xs,
            crlf(),
        )[xs[0].len() as int] == '\r',
{
}

/// Lines without `\r\n`, joined with `\r\n`, split back into the same lines.
pub proof fn lemma_split_joined_lines(xs: Seq<Seq<char>>)
    requires
        xs.len() >= 1,
        forall|k: int| 0 <= k < xs.len() ==> !contains(#[trigger] xs[k], crlf()),
    ensures
        split_by(join(xs, crlf()), crlf()) == xs,
    decreases xs.len(),
{
    let crlf = crlf();
    let x0 = xs[0];
    lemma_not_contains(x0, crlf);
    if xs.len() == 1 {
        lemma_split_no_match(x0, crlf, 0);
        assert(x0.subrange(0, x0.len() as int) =~= x0);
        assert(seq![x0] =~= xs);
    } else {
        let rest = xs.drop_first();
        let jr = join(rest, crlf);
        let text = join(xs, crlf);
        assert(text == x0 + crlf + jr);
        assert forall|k: int| 0 <= k < x0.len() implies !match_at(text, crlf, k) by {
            if k + 2 <= x0.len() {
                assert(text == x0 + (crlf + jr));
                lemma_match_prefix(x0, crlf + jr, crlf, k);
            } else {
                assert(text[k + 1] == '\r');
            }
        }
        assert(text.subrange(x0.len() as int, x0.len() + 2int) =~= crlf);
        lemma_next_match_exact(text, crlf, 0, x0.len() as int);
        assert forall|k: int| 0 <= k < rest.len() implies !contains(#[trigger] rest[k], crlf) by {
            assert(rest[k] == xs[k + 1]);
        }
        lemma_split_joined_lines(rest);
        lemma_split_from_nonempty(jr, crlf, 0);
        assert(text == (x0 + crlf) + jr);
        lemma_split_shift(x0 + crlf, jr, crlf, 0);
        assert(text.subrange(0, x0.len() as int) =~= x0);
        assert(split_by(text, crlf) =~= seq![x0] + rest);
        assert(seq![x0] + rest =~= xs);
    }
}

/// In non-empty lines without `\r\n`, joined with `\r\n` and followed by a
/// blank line, no blank line (`\r\n\r\n`) starts before the joined lines end.
proof fn lemma_no_blank_within(xs: Seq<Seq<char>>, t: Seq<char>)
    requires
        xs.len() >= 1,
        forall|k: int|
            0 <= k < xs.len() ==> (#[trigger] xs[k]).len() > 0 && !contains(xs[k], crlf()),
        t.len() >= 1,
        t[0] == '\r',
    ensures
        forall|k: int|
            0 <= k < join(xs, crlf()).len() ==> !#[trigger] match_at(
                join(xs, crlf()) + t,
                blank_line(),
                k,
            ),
    decreases xs.len(),
{
    let crlf = crlf();
    let blank = blank_line();
    let x0 = xs[0];
    let head = join(xs, crlf);
    let text = head + t;
    lemma_not_contains(x0, crlf);
    lemma_join_head(xs);
    if xs.len() >= 2 {
        let rest = xs.drop_first();
        assert forall|k: int| 0 <= k < rest.len() implies (#[trigger] rest[k]).len() > 0
            && !contains(rest[k], crlf) by {
            assert(rest[k] == xs[k + 1]);
        }
        lemma_no_blank_within(rest, t);
    }
    assert forall|k: int| 0 <= k < head.len() implies !#[trigger] match_at(text, blank, k) by {
        if match_at(text, blank, k) {
            assert(text.subrange(k, k + 4)[0] == text[k]);
            assert(text.subrange(k, k + 4)[1] == text[k + 1]);
            assert(text.subrange(k, k + 4)[2] == text[k + 2]);
            assert(text.subrange(k, k + 4)[3] == text[k + 3]);
            if k < x0.len() {
                if k + 2 <= x0.len() {
                    assert(x0.subrange(k, k + 2) =~= crlf);
                    assert(match_at(x0, crlf, k));
                } else {
                    assert(text[k + 1] == '\r');
                }
            } else {
                let rest = xs.drop_first();
                let jr = join(rest, crlf);
                assert(head == x0 + crlf + jr);
                assert(text == (x0 + crlf) + (jr + t));
                if k == x0.len() {
                    let x1 = rest[0];
                    lemma_join_head(rest);
                    lemma_not_contains(x1, crlf);
                    if x1.len() >= 2 {
                        assert(x1.subrange(0, 2) =~= crlf);
                        assert(match_at(x1, crlf, 0));
                    } else {
                        if rest.len() >= 2 {
                            assert(text[k + 3] == '\r');
                        } else {
                            assert(jr == x1);
                            assert(text[k + 3] == t[0]);
                        }
                    }
                } else if k == x0.len() + 1 {
                    assert(text[k] == '\n');
                } else {
                    let k2 = k - x0.len() - 2;
                    lemma_match_shift(x0 + crlf, jr + t, blank, k2);
                }
            }
        }
    }
}

/// Text made of non-empty lines without `\r\n`, joined with `\r\n`, then a
/// blank line, then a body without a blank line, cuts at the blank line into
/// the joined lines and the body.
pub proof fn lemma_split_head_body(xs: Seq<Seq<char>>, body: Seq<char>)
    requires
        xs.len() >= 1,
        forall|k: int|
            0 <= k < xs.len() ==> (#[trigger] xs[k]).len() > 0 && !contains(xs[k], crlf()),
        !contains(body, blank_line()),
    ensures
        split_by(
            join(xs, crlf()) + blank_line() + body,
            blank_line(),
        ) == seq![join(xs, crlf()), body],
{
    let crlf = crlf();
    let blank = blank_line();
    let head = join(xs, crlf);
    let text = head + blank + body;
    assert(text == head + (blank + body));
    lemma_no_blank_within(xs, blank + body);
    assert(text.subrange(head.len() as int, head.len() + 4int) =~= blank);
    lemma_next_match_exact(text, blank, 0, head.len() as int);
    assert(text == (head + blank) + body);
    lemma_split_shift(head + blank, body, blank, 0);
    lemma_not_contains(body, blank);
    lemma_split_no_match(body, blank, 0);
    assert(body.subrange(0, body.len() as int) =~= body);
    assert(text.subrange(0, head.len() as int) =~= head);
    assert(split_by(text, blank) =~= seq![head, body]);
}

// ---------------------------------------------------------------------------
// Whitespace trimming
// ---------------------------------------------------------------------------

/// Unicode `White_Space`, the set that `char::is_whitespace` and `str::trim`
/// use.
pub open spec fn is_whitespace(c: char) -> bool {
    let u = c as u32;
    (0x09 <= u <= 0x0d) || u == 0x20 || u == 0x85 || u == 0xa0 || u == 0x1680 || (0x2000 <= u
        <= 0x200a) || u == 0x2028 || u == 0x2029 || u == 0x202f || u == 0x205f || u == 0x3000
}

/// Whether `c` is Unicode whitespace.
pub fn whitespace(c: char) -> (w: bool)
    ensures
        w == is_whitespace(c),
{
    let u = c as u32;
    (0x09 <= u && u <= 0x0d) || u == 0x20 || u == 0x85 || u == 0xa0 || u == 0x1680 || (0x2000 <= u
        && u <= 0x200a) || u == 0x2028 || u == 0x2029 || u == 0x202f || u == 0x205f || u == 0x3000
}

/// The index of the first character at or after `i` that is not whitespace
/// (`s.len()` when there is none).
pub open spec fn skip_whitespace(s: Seq<char>, i: int) -> int
    decreases s.len() - i,
{
    if 0 <= i < s.len() && is_whitespace(s[i]) {
        skip_whitespace(s, i + 1)
    } else {
        i
    }
}

/// The end of `s` once whitespace before index `j` is dropped, never going
/// below `lo`.
pub open spec fn back_over_whitespace(s: Seq<char>, lo: int, j: int) -> int
    decreases j - lo,
{
    if lo < j <= s.len() && is_whitespace(s[j - 1]) {
        back_over_whitespace(s, lo, j - 1)
    } else {
        j
    }
}

/// `s` with leading and trailing whitespace removed (what `str::trim`
/// returns).
pub open spec fn trim(s: Seq<char>) -> Seq<char> {
    let a = skip_whitespace(s, 0);
    s.subrange(a, back_over_whitespace(s, a, s.len() as int))
}

/// Bounds of the two trimming indices.
pub proof fn lemma_trim_bounds(s: Seq<char>, i: int, lo: int, j: int)
    requires
        0 <= i <= s.len(),
        0 <= lo <= j <= s.len(),
    ensures
        i <= skip_whitespace(s, i) <= s.len(),
        forall|k: int| i <= k < skip_whitespace(s, i) ==> is_whitespace(s[k]),
        skip_whitespace(s, i) < s.len() ==> !is_whitespace(s[skip_whitespace(s, i)]),
        lo <= back_over_whitespace(s, lo, j) <= j,
        forall|k: int| back_over_whitespace(s, lo, j) <= k < j ==> is_whitespace(s[k]),
        back_over_whitespace(s, lo, j) > lo ==> !is_whitespace(
            s[back_over_whitespace(s, lo, j) - 1],
        ),
    decreases s.len() - i + j - lo,
{
    if i < s.len() && is_whitespace(s[i]) {
        lemma_trim_bounds(s, i + 1, lo, j);
    }
    if lo < j && is_whitespace(s[j - 1]) {
        lemma_trim_bounds(s, i, lo, j - 1);
    }
}


/// What trimming leaves: a piece of `s` with no whitespace at either end,
/// with only whitespace cut off before and after it.
pub proof fn lemma_trim_shape(s: Seq<char>)
    ensures
        trim(s).len() > 0 ==> !is_whitespace(trim(s)[0]) && !is_whitespace(trim(s).last()),
        exists|a: int|
            0 <= a && a + trim(s).len() <= s.len() && #[trigger] s.subrange(a, a + trim(s).len())
                == trim(s) && (forall|k: int| 0 <= k < a ==> is_whitespace(s[k])) && (forall|k: int|
                a + trim(s).len() <= k < s.len() ==> is_whitespace(s[k])),
{
    lemma_trim_bounds(s, 0, 0, s.len() as int);
    let a = skip_whitespace(s, 0);
    lemma_trim_bounds(s, 0, a, s.len() as int);
    let b = back_over_whitespace(s, a, s.len() as int);
    assert(trim(s) == s.subrange(a, b));
    if b > a {
        assert(trim(s)[0] == s[a]);
        assert(trim(s).last() == s[b - 1]);
    }
    assert(s.subrange(a, a + trim(s).len()) == trim(s));
}

/// `s` with leading and trailing whitespace removed.
pub fn trim_chars(s: &Vec<char>) -> (out: Vec<char>)
    ensures
        out@ == trim(s@),
{
    let mut a: usize = 0;
    while a < s.len() && whitespace(s[a])
        invariant
            a <= s.len(),
            skip_whitespace(s@, 0) == skip_whitespace(s@, a as int),
        decreases s.len() - a,
    {
        a = a + 1;
    }
    let mut b: usize = s.len();
    while b > a && whitespace(s[b - 1])
        invariant
            a <= b <= s.len(),
            back_over_whitespace(s@, a as int, s.len() as int) == back_over_whitespace(
                s@,
                a as int,
                b as int,
            ),
        decreases b,
    {
        b = b - 1;
    }
    sub_chars(s, a, b)
}

// ---------------------------------------------------------------------------
// Decimal rendering
// ---------------------------------------------------------------------------

/// The decimal digit character for `d < 10`.
pub open spec fn digit_char(d: nat) -> char {
    ((48 + d) as u32) as char
}

/// The decimal representation of `n`, without leading zeros.
pub open spec fn decimal(n: nat) -> Seq<char>
    decreases n,
{
    if n < 10 {
        seq![digit_char(n)]
    } else {
        decimal(n / 10).push(digit_char(n % 10))
    }
}

/// The value of a sequence of decimal digits.
pub open spec fn decimal_value(s: Seq<char>) -> nat
    decreases s.len(),
{
    if s.len() == 0 {
        0
    } else {
        decimal_value(s.drop_last()) * 10 + ((s.last() as u32) - 48) as nat
    }
}

/// `c` is one of `0`..`9`.
pub open spec fn is_digit(c: char) -> bool {
    48 <= (c as u32) <= 57
}

/// Decimal rendering is faithful: it yields digits only, starts with a
/// non-zero digit unless the number is zero, and reading the digits back
/// gives the number.
pub proof fn lemma_decimal_round_trip(n: nat)
    ensures
        decimal(n).len() >= 1,
        forall|k: int| 0 <= k < decimal(n).len() ==> is_digit(#[trigger] decimal(n)[k]),
        n > 0 ==> decimal(n)[0] != '0',
        decimal_value(decimal(n)) == n,
    decreases n,
{
    if n >= 10 {
        lemma_decimal_round_trip(n / 10);
        let d = decimal(n / 10);
        assert(decimal(n).drop_last() =~= d);
        assert(decimal(n).last() == digit_char(n % 10));
        assert((digit_char(n % 10) as u32) == 48 + n % 10);
        assert(n == (n / 10) * 10 + n % 10);
        assert(decimal_value(decimal(n)) == decimal_value(d) * 10 + (n % 10));
        assert(decimal(n)[0] == d[0]);
        assert forall|k: int| 0 <= k < decimal(n).len() implies is_digit(
            #[trigger] decimal(n)[k],
        ) by {
            if k < d.len() {
                assert(decimal(n)[k] == d[k]);
            }
        }
    } else {
        assert(decimal(n).drop_last() =~= Seq::<char>::empty());
        assert((digit_char(n) as u32) == 48 + n);
        assert(decimal_value(decimal(n)) == decimal_value(Seq::<char>::empty()) * 10 + n);
    }
}

/// The decimal digit character for `d`.
pub fn digit(d: u64) -> (c: char)
    requires
        d < 10,
    ensures
        c == digit_char(d as nat),
{
    let b: u8 = 48u8 + (d as u8);
    b as char
}

/// The decimal representation of `n`.
pub fn decimal_chars(n: u64) -> (out: Vec<char>)
    ensures
        out@ == decimal(n as nat),
    decreases n,
{
    if n < 10 {
        let mut out: Vec<char> = Vec::new();
        out.push(digit(n));
        assert(out@ =~= seq![digit_char(n as nat)]);
        out
    } else {
        let mut out = decimal_chars(n / 10);
        out.push(digit(n % 10));
        out
    }
}

} // verus!
