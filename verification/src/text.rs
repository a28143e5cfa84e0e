//! Character-level text handling shared by every module: trimming, splitting,
//! joining, and the few comparisons headers and paths need.

use vstd::prelude::*;

verus! {

/// What `char::is_whitespace` accepts: the Unicode `White_Space` property.
pub open spec fn is_ws(c: char) -> bool {
    ||| c == '\t' || c == '\n' || c == '\x0B' || c == '\x0C' || c == '\r' || c == ' '
    ||| c == '\u{85}' || c == '\u{A0}' || c == '\u{1680}'
    ||| ('\u{2000}' <= c && c <= '\u{200A}')
    ||| c == '\u{2028}' || c == '\u{2029}' || c == '\u{202F}' || c == '\u{205F}' || c == '\u{3000}'
}

/// Whitespace removed from the front.
pub open spec fn trim_start(s: Seq<char>) -> Seq<char>
    decreases s.len(),
{
    if s.len() > 0 && is_ws(s[0]) {
        trim_start(s.drop_first())
    } else {
        s
    }
}

/// Whitespace removed from the back.
pub open spec fn trim_end(s: Seq<char>) -> Seq<char>
    decreases s.len(),
{
    if s.len() > 0 && is_ws(s.last()) {
        trim_end(s.drop_last())
    } else {
        s
    }
}

/// `str::trim`.
pub open spec fn trim(s: Seq<char>) -> Seq<char> {
    trim_end(trim_start(s))
}

/// Whether `c` decides the exec character classification used below.
pub fn is_whitespace(c: char) -> (b: bool)
    ensures
        b == is_ws(c),
{
    c == '\t' || c == '\n' || c == '\x0B' || c == '\x0C' || c == '\r' || c == ' '
        || c == '\u{85}' || c == '\u{A0}' || c == '\u{1680}' || ('\u{2000}' <= c && c
        <= '\u{200A}') || c == '\u{2028}' || c == '\u{2029}' || c == '\u{202F}' || c
        == '\u{205F}' || c == '\u{3000}'
}

/// The characters of a string, in order.
pub fn chars_of(s: &str) -> (v: Vec<char>)
    ensures
        v@ == s@,
{
    let mut v: Vec<char> = Vec::new();
    for c in it: s.chars()
        invariant
            v@ == it.seq().take(it.index() as int),
            it.seq() == s@,
    {
        v.push(c);
    }
    v
}


/// `str::split` on one character: the pieces between separators, always at
/// least one, and empty pieces kept.
pub open spec fn split(s: Seq<char>, sep: char) -> Seq<Seq<char>>
    decreases s.len(),
{
    if s.len() == 0 {
        seq![Seq::<char>::empty()]
    } else {
        let rest = split(s.drop_last(), sep);
        if s.last() == sep {
            rest.push(Seq::<char>::empty())
        } else {
            rest.update(rest.len() - 1, rest.last().push(s.last()))
        }
    }
}

pub proof fn lemma_split_nonempty(s: Seq<char>, sep: char)
    ensures
        split(s, sep).len() >= 1,
    decreases s.len(),
{
    if s.len() > 0 {
        lemma_split_nonempty(s.drop_last(), sep);
    }
}

/// When there is a second piece, the first one is followed in `s` by the
/// separator.
pub proof fn lemma_split_first_len(s: Seq<char>, sep: char)
    ensures
        split(s, sep).len() >= 1,
        split(s, sep)[0].len() <= s.len(),
        split(s, sep).len() > 1 ==> split(s, sep)[0].len() < s.len() && s[split(s, sep)[0].len() as int] == sep,
        split(s, sep)[0] == s.take(split(s, sep)[0].len() as int),
        split(s, sep).len() == 1 ==> split(s, sep)[0] == s,
    decreases s.len(),
{
    lemma_split_nonempty(s, sep);
    if s.len() > 0 {
        lemma_split_first_len(s.drop_last(), sep);
        lemma_split_nonempty(s.drop_last(), sep);
        let rest = split(s.drop_last(), sep);
        let k = rest[0].len();
        if s.last() == sep {
            assert(split(s, sep)[0] == rest[0]);
            assert(s.drop_last().take(k as int) == s.take(k as int));
            if rest.len() > 1 {
                assert(s[k as int] == s.drop_last()[k as int]);
            } else {
                assert(k == s.drop_last().len());
            }
        } else {
            if rest.len() > 1 {
                assert(split(s, sep)[0] == rest[0]);
                assert(s.drop_last().take(k as int) == s.take(k as int));
                assert(s[k as int] == s.drop_last()[k as int]);
            } else {
                assert(split(s, sep)[0] == rest[0].push(s.last()));
                assert(rest[0] == s.drop_last());
                assert(s.drop_last().push(s.last()) == s);
                assert(split(s, sep)[0] == s);
                assert(s.take(s.len() as int) == s);
            }
        }
    }
}

/// The parts with `sep` between each neighbouring pair.
pub open spec fn join(parts: Seq<Seq<char>>, sep: Seq<char>) -> Seq<char>
    decreases parts.len(),
{
    if parts.len() == 0 {
        Seq::<char>::empty()
    } else if parts.len() == 1 {
        parts[0]
    } else {
        join(parts.drop_last(), sep) + sep + parts.last()
    }
}

/// The character sequences a vector of character vectors holds.
pub open spec fn views(v: Seq<Vec<char>>) -> Seq<Seq<char>> {
    v.map_values(|x: Vec<char>| x@)
}

/// Each piece of `parts`, trimmed.
pub open spec fn trim_all(parts: Seq<Seq<char>>) -> Seq<Seq<char>> {
    parts.map_values(|p: Seq<char>| trim(p))
}

/// ASCII case folding of one character, as a code point.
pub open spec fn fold(c: char) -> u32 {
    if 'A' <= c && c <= 'Z' {
        (c as u32 + 32) as u32
    } else {
        c as u32
    }
}

/// `str::eq_ignore_ascii_case`.
pub open spec fn eq_ignore_case(a: Seq<char>, b: Seq<char>) -> bool {
    a.len() == b.len() && forall|i: int| 0 <= i < a.len() ==> fold(#[trigger] a[i]) == fold(b[i])
}

/// `str::starts_with` for a prefix string.
pub open spec fn starts_with(s: Seq<char>, p: Seq<char>) -> bool {
    p.len() <= s.len() && s.take(p.len() as int) == p
}

/// A character `HeaderValue::from_str` accepts: its UTF-8 bytes are all 32 or
/// above and not 127, or it is a tab.
pub open spec fn header_char(c: char) -> bool {
    c == '\t' || (' ' <= c && c != '\x7F')
}

/// A string `HeaderValue::from_str` accepts.
pub open spec fn header_valid(s: Seq<char>) -> bool {
    forall|i: int| 0 <= i < s.len() ==> header_char(#[trigger] s[i])
}

/// A character `HeaderValue::to_str` accepts: visible ASCII or a tab.
pub open spec fn visible_char(c: char) -> bool {
    c == '\t' || (' ' <= c && c < '\x7F')
}

/// A string `HeaderValue::to_str` would hand back.
pub open spec fn header_visible(s: Seq<char>) -> bool {
    forall|i: int| 0 <= i < s.len() ==> visible_char(#[trigger] s[i])
}

/// What follows the first `c` in `s`, if `s` has one (`split_once`).
pub open spec fn after_first(s: Seq<char>, c: char) -> Option<Seq<char>> {
    let pieces = split(s, c);
    if pieces.len() > 1 {
        Some(s.skip(pieces[0].len() as int + 1))
    } else {
        None
    }
}

/// Whether `s` begins with `p`, ignoring ASCII case.
pub open spec fn starts_with_ignore_case(s: Seq<char>, p: Seq<char>) -> bool {
    p.len() <= s.len() && eq_ignore_case(s.take(p.len() as int), p)
}

/// Appends one character to a string.
///
/// Calls `String::push`, whose documentation says it appends the character to
/// the end; the contract says exactly that of the view.
#[verifier::external_body]
fn push_char(s: &mut String, c: char)
    ensures
        final(s)@ == old(s)@.push(c),
{
    s.push(c);
}

/// A string holding exactly these characters.
pub fn string_of(v: &[char]) -> (s: String)
    ensures
        s@ == v@,
{
    let mut s = String::new();
    for i in 0..v.len()
        invariant
            s@ == v@.take(i as int),
    {
        push_char(&mut s, v[i]);
        assert(v@.take(i + 1) == v@.take(i as int).push(v@[i as int]));
    }
    assert(v@.take(v@.len() as int) == v@);
    s
}

/// Equality of two character sequences.
pub fn same(a: &[char], b: &[char]) -> (r: bool)
    ensures
        r == (a@ == b@),
{
    if a.len() != b.len() {
        return false;
    }
    for i in 0..a.len()
        invariant
            a@.len() == b@.len(),
            forall|j: int| 0 <= j < i ==> a@[j] == b@[j],
    {
        if a[i] != b[i] {
            return false;
        }
    }
    assert(a@ =~= b@);
    true
}

/// Whether `s` begins with `p`.
pub fn has_prefix(s: &[char], p: &[char]) -> (r: bool)
    ensures
        r == starts_with(s@, p@),
{
    if p.len() > s.len() {
        return false;
    }
    for i in 0..p.len()
        invariant
            p@.len() <= s@.len(),
            forall|j: int| 0 <= j < i ==> s@[j] == p@[j],
    {
        if s[i] != p[i] {
            assert(s@.take(p@.len() as int)[i as int] != p@[i as int]);
            return false;
        }
    }
    assert(s@.take(p@.len() as int) =~= p@);
    true
}

/// The code point of `c` with ASCII upper case folded to lower case.
pub fn fold_char(c: char) -> (r: u32)
    ensures
        r == fold(c),
{
    if 'A' <= c && c <= 'Z' {
        c as u32 + 32
    } else {
        c as u32
    }
}

/// `eq_ignore_ascii_case` on two character sequences.
pub fn same_ignoring_case(a: &[char], b: &[char]) -> (r: bool)
    ensures
        r == eq_ignore_case(a@, b@),
{
    if a.len() != b.len() {
        return false;
    }
    for i in 0..a.len()
        invariant
            a@.len() == b@.len(),
            forall|j: int| 0 <= j < i ==> fold(#[trigger] a@[j]) == fold(b@[j]),
    {
        if fold_char(a[i]) != fold_char(b[i]) {
            return false;
        }
    }
    true
}

/// Whether every character is one `HeaderValue::to_str` would give back.
pub fn is_header_visible(s: &[char]) -> (r: bool)
    ensures
        r == header_visible(s@),
{
    for i in 0..s.len()
        invariant
            forall|j: int| 0 <= j < i ==> visible_char(#[trigger] s@[j]),
    {
        let c = s[i];
        if !(c == '\t' || (' ' <= c && c < '\x7F')) {
            return false;
        }
    }
    true
}

/// A copy of the characters.
pub fn copy_chars(s: &[char]) -> (r: Vec<char>)
    ensures
        r@ == s@,
{
    vstd::slice::slice_to_vec(s)
}

/// The characters from `from` on.
pub fn tail_from(s: &[char], from: usize) -> (r: Vec<char>)
    requires
        from <= s@.len(),
    ensures
        r@ == s@.skip(from as int),
{
    let mut r: Vec<char> = Vec::new();
    let mut j = from;
    while j < s.len()
        invariant
            from <= j <= s@.len(),
            r@ == s@.subrange(from as int, j as int),
        decreases s@.len() - j,
    {
        r.push(s[j]);
        assert(s@.subrange(from as int, j + 1) == s@.subrange(from as int, j as int).push(s@[j as int]));
        j = j + 1;
    }
    assert(s@.subrange(from as int, s@.len() as int) == s@.skip(from as int));
    r
}

/// The characters before `to`.
pub fn head_to(s: &[char], to: usize) -> (r: Vec<char>)
    requires
        to <= s@.len(),
    ensures
        r@ == s@.take(to as int),
{
    let mut r: Vec<char> = Vec::new();
    for j in 0..to
        invariant
            to <= s@.len(),
            r@ == s@.take(j as int),
    {
        r.push(s[j]);
        assert(s@.take(j + 1) == s@.take(j as int).push(s@[j as int]));
    }
    r
}

/// `split_once`: what follows the first `c`, if there is one.
pub fn after_first_of(s: &[char], c: char) -> (r: Option<Vec<char>>)
    ensures
        match after_first(s@, c) {
            Some(t) => r matches Some(v) && v@ == t,
            None => r is None,
        },
{
    let pieces = split_chars(s, c);
    if pieces.len() > 1 {
        let n = pieces[0].len();
        proof {
            lemma_split_first_len(s@, c);
            assert(views(pieces@)[0] == pieces@[0]@);
        }
        assert(n < s.len());
        Some(tail_from(s, n + 1))
    } else {
        None
    }
}

/// Whether `s` begins with `p`, ignoring ASCII case.
pub fn has_prefix_ignoring_case(s: &[char], p: &[char]) -> (r: bool)
    ensures
        r == starts_with_ignore_case(s@, p@),
{
    if p.len() > s.len() {
        return false;
    }
    let head = head_to(s, p.len());
    same_ignoring_case(head.as_slice(), p)
}

/// Whether every character is one a header value may carry.
pub fn is_header_valid(s: &[char]) -> (r: bool)
    ensures
        r == header_valid(s@),
{
    for i in 0..s.len()
        invariant
            forall|j: int| 0 <= j < i ==> header_char(#[trigger] s@[j]),
    {
        let c = s[i];
        if !(c == '\t' || (' ' <= c && c != '\x7F')) {
            return false;
        }
    }
    true
}

proof fn lemma_trim_start_skip(s: Seq<char>, i: int)
    requires
        0 <= i <= s.len(),
        forall|j: int| 0 <= j < i ==> is_ws(#[trigger] s[j]),
    ensures
        trim_start(s) == trim_start(s.skip(i)),
    decreases i,
{
    if i > 0 {
        assert(is_ws(s[0]));
        assert(s.skip(1) == s.drop_first());
        lemma_trim_start_skip(s.drop_first(), i - 1);
        assert(s.drop_first().skip(i - 1) == s.skip(i));
    } else {
        assert(s.skip(0) == s);
    }
}

proof fn lemma_trim_end_take(s: Seq<char>, k: int)
    requires
        0 <= k <= s.len(),
        forall|j: int| k <= j < s.len() ==> is_ws(#[trigger] s[j]),
    ensures
        trim_end(s) == trim_end(s.take(k)),
    decreases s.len() - k,
{
    if k < s.len() {
        assert(s.take(s.len() - 1) == s.drop_last());
        lemma_trim_end_take(s.drop_last(), k);
        assert(s.drop_last().take(k) == s.take(k));
    } else {
        assert(s.take(k) == s);
    }
}

/// `str::trim` on a character sequence.
pub fn trim_chars(s: &[char]) -> (r: Vec<char>)
    ensures
        r@ == trim(s@),
{
    let n = s.len();
    let mut i: usize = 0;
    while i < n && is_whitespace(s[i])
        invariant
            i <= n,
            n == s@.len(),
            forall|j: int| 0 <= j < i ==> is_ws(#[trigger] s@[j]),
        decreases n - i,
    {
        i = i + 1;
    }
    proof {
        lemma_trim_start_skip(s@, i as int);
    }
    let ghost t = s@.skip(i as int);
    assert(trim_start(t) == t);
    let mut k: usize = n;
    while k > i && is_whitespace(s[k - 1])
        invariant
            i <= k <= n,
            n == s@.len(),
            t == s@.skip(i as int),
            forall|j: int| k - i <= j < t.len() ==> is_ws(#[trigger] t[j]),
        decreases k,
    {
        k = k - 1;
    }
    proof {
        lemma_trim_end_take(t, k - i);
        let u = t.take(k - i);
        if u.len() > 0 {
            assert(u.last() == s@[k - 1]);
        }
        assert(trim_end(u) == u);
    }
    let mut r: Vec<char> = Vec::new();
    let mut j: usize = i;
    while j < k
        invariant
            i <= j <= k <= n,
            n == s@.len(),
            r@ == s@.subrange(i as int, j as int),
        decreases k - j,
    {
        r.push(s[j]);
        assert(s@.subrange(i as int, j + 1) == s@.subrange(i as int, j as int).push(s@[j as int]));
        j = j + 1;
    }
    assert(r@ == t.take(k - i));
    r
}

/// `str::split` on one character, materialised.
pub fn split_chars(s: &[char], sep: char) -> (r: Vec<Vec<char>>)
    ensures
        views(r@) == split(s@, sep),
        r@.len() >= 1,
{
    let mut r: Vec<Vec<char>> = Vec::new();
    r.push(Vec::new());
    proof {
        assert(s@.take(0) == Seq::<char>::empty());
        assert(views(r@) =~= split(s@.take(0), sep));
    }
    for i in 0..s.len()
        invariant
            views(r@) == split(s@.take(i as int), sep),
            r@.len() >= 1,
    {
        let c = s[i];
        let ghost before = views(r@);
        proof {
            let t = s@.take(i + 1);
            assert(t.drop_last() == s@.take(i as int));
            assert(t.last() == c);
        }
        if c == sep {
            r.push(Vec::new());
            assert(views(r@) =~= before.push(Seq::<char>::empty()));
        } else {
            let last = r.len() - 1;
            let mut piece = r.pop().unwrap();
            piece.push(c);
            r.push(piece);
            assert(views(r@) =~= before.update(before.len() - 1, before.last().push(c)));
        }
    }
    assert(s@.take(s@.len() as int) == s@);
    r
}

/// Each piece trimmed.
pub fn trim_each(parts: &Vec<Vec<char>>) -> (r: Vec<Vec<char>>)
    ensures
        views(r@) == trim_all(views(parts@)),
{
    let mut r: Vec<Vec<char>> = Vec::new();
    for i in 0..parts.len()
        invariant
            views(r@) == trim_all(views(parts@).take(i as int)),
    {
        let t = trim_chars(parts[i].as_slice());
        let ghost before = r@;
        r.push(t);
        proof {
            let want = trim_all(views(parts@).take(i + 1));
            assert(views(before).len() == before.len());
            assert(views(parts@).len() == parts@.len());
            assert(trim_all(views(parts@).take(i as int)).len() == i);
            assert(before.len() == i);
            assert(r@ == before.push(t));
            assert(views(r@).len() == want.len());
            assert forall|j: int| 0 <= j < want.len() implies views(r@)[j] == want[j] by {
                if j < i {
                    assert(views(r@)[j] == views(before)[j]);
                    assert(want[j] == trim(views(parts@)[j]));
                    assert(trim_all(views(parts@).take(i as int))[j] == trim(views(parts@)[j]));
                }
            }
            assert(views(r@) =~= want);
        }
    }
    assert(views(parts@).take(parts@.len() as int) == views(parts@));
    r
}

/// The parts joined with `sep`.
pub fn join_chars(parts: &Vec<Vec<char>>, sep: &[char]) -> (r: Vec<char>)
    ensures
        r@ == join(views(parts@), sep@),
{
    let mut r: Vec<char> = Vec::new();
    for i in 0..parts.len()
        invariant
            r@ == join(views(parts@).take(i as int), sep@),
    {
        let ghost before = r@;
        if i > 0 {
            r.extend_from_slice(sep);
        }
        r.extend_from_slice(parts[i].as_slice());
        proof {
            let d = views(parts@);
            let t = d.take(i + 1);
            assert(t.drop_last() == d.take(i as int));
            assert(t.last() == parts@[i as int]@);
            if i == 0 {
                assert(t.len() == 1);
            }
        }
    }
    assert(views(parts@).take(parts@.len() as int) == views(parts@));
    r
}


/// `str::replace` with a non-empty pattern: every leftmost, non-overlapping
/// occurrence of `pat` replaced by `rep`.
pub open spec fn replace(s: Seq<char>, pat: Seq<char>, rep: Seq<char>) -> Seq<char>
    recommends
        pat.len() > 0,
    decreases s.len(),
{
    if pat.len() == 0 || s.len() < pat.len() {
        s
    } else if s.take(pat.len() as int) == pat {
        rep + replace(s.skip(pat.len() as int), pat, rep)
    } else {
        seq![s[0]] + replace(s.drop_first(), pat, rep)
    }
}

/// Whether `pat` occurs in `s` at `i`.
pub fn occurs_at(s: &[char], pat: &[char], i: usize) -> (r: bool)
    requires
        i <= s@.len(),
    ensures
        r == (i + pat@.len() <= s@.len() && s@.skip(i as int).take(pat@.len() as int) == pat@),
{
    if pat.len() > s.len() - i {
        return false;
    }
    let mut j: usize = 0;
    let n = s.len();
    while j < pat.len()
        invariant
            n == s@.len(),
            i + pat@.len() <= s@.len(),
            j <= pat@.len(),
            forall|k: int| 0 <= k < j ==> s@[i + k] == pat@[k],
        decreases pat@.len() - j,
    {
        if s[i + j] != pat[j] {
            assert(s@.skip(i as int).take(pat@.len() as int)[j as int] != pat@[j as int]);
            return false;
        }
        j = j + 1;
    }
    assert(s@.skip(i as int).take(pat@.len() as int) =~= pat@);
    true
}

/// `str::replace` with a non-empty pattern.
pub fn replace_chars(s: &[char], pat: &[char], rep: &[char]) -> (r: Vec<char>)
    requires
        pat@.len() > 0,
    ensures
        r@ == replace(s@, pat@, rep@),
{
    let mut out: Vec<char> = Vec::new();
    let mut i: usize = 0;
    assert(s@.skip(0) == s@);
    while i < s.len()
        invariant
            i <= s@.len(),
            pat@.len() > 0,
            out@ + replace(s@.skip(i as int), pat@, rep@) == replace(s@, pat@, rep@),
        decreases s@.len() - i,
    {
        let ghost t = s@.skip(i as int);
        if occurs_at(s, pat, i) {
            out.extend_from_slice(rep);
            proof {
                assert(t.skip(pat@.len() as int) == s@.skip(i + pat@.len()));
            }
            i = i + pat.len();
        } else {
            let ghost o = out@;
            out.push(s[i]);
            proof {
                assert(t[0] == s@[i as int]);
                assert(t.drop_first() == s@.skip(i + 1));
                assert(out@ == o + seq![t[0]]);
            }
            i = i + 1;
        }
    }
    assert(s@.skip(s@.len() as int).len() == 0);
    assert(out@ + Seq::<char>::empty() == out@);
    out
}


/// The decimal digit for `d`.
pub open spec fn digit_char(d: nat) -> char
    recommends
        d < 10,
{
    if d == 0 { '0' } else if d == 1 { '1' } else if d == 2 { '2' } else if d == 3 { '3' }
    else if d == 4 { '4' } else if d == 5 { '5' } else if d == 6 { '6' } else if d == 7 { '7' }
    else if d == 8 { '8' } else { '9' }
}

/// `n` written in decimal, as `to_string` writes an unsigned integer.
pub open spec fn decimal(n: nat) -> Seq<char>
    decreases n,
{
    if n < 10 {
        seq![digit_char(n)]
    } else {
        decimal(n / 10).push(digit_char(n % 10))
    }
}

fn digit_of(d: u64) -> (c: char)
    requires
        d < 10,
    ensures
        c == digit_char(d as nat),
{
    if d == 0 { '0' } else if d == 1 { '1' } else if d == 2 { '2' } else if d == 3 { '3' }
    else if d == 4 { '4' } else if d == 5 { '5' } else if d == 6 { '6' } else if d == 7 { '7' }
    else if d == 8 { '8' } else { '9' }
}

/// `n` written in decimal.
pub fn decimal_chars(n: u64) -> (v: Vec<char>)
    ensures
        v@ == decimal(n as nat),
    decreases n,
{
    if n < 10 {
        let mut v = Vec::new();
        v.push(digit_of(n));
        v
    } else {
        let mut v = decimal_chars(n / 10);
        v.push(digit_of(n % 10));
        v
    }
}

/// The value of a decimal digit character.
pub open spec fn digit_value(c: char) -> nat {
    (c as u32 - '0' as u32) as nat
}

/// Whether `c` is an ASCII digit.
pub open spec fn is_digit(c: char) -> bool {
    '0' <= c && c <= '9'
}

/// The value a run of digits spells.
pub open spec fn digits_value(s: Seq<char>) -> nat
    decreases s.len(),
{
    if s.len() == 0 {
        0
    } else {
        digits_value(s.drop_last()) * 10 + digit_value(s.last())
    }
}

/// The text after an optional leading `+`.
pub open spec fn unsigned_digits(s: Seq<char>) -> Seq<char> {
    if s.len() > 0 && s[0] == '+' {
        s.drop_first()
    } else {
        s
    }
}

/// What `str::parse` gives for an unsigned integer, before the type's bound is
/// applied: an optional `+`, then one or more ASCII digits and nothing else.
pub open spec fn parse_decimal(s: Seq<char>) -> Option<nat> {
    let d = unsigned_digits(s);
    if d.len() > 0 && forall|i: int| 0 <= i < d.len() ==> is_digit(#[trigger] d[i]) {
        Some(digits_value(d))
    } else {
        None
    }
}

/// What `str::parse` gives for an unsigned integer type whose largest value is
/// `max`.
pub open spec fn parse_bounded(s: Seq<char>, max: nat) -> Option<nat> {
    match parse_decimal(s) {
        Some(v) => if v <= max { Some(v) } else { None },
        None => None,
    }
}

proof fn lemma_digits_grow(s: Seq<char>, i: int)
    requires
        0 <= i <= s.len(),
    ensures
        digits_value(s.take(i)) <= digits_value(s),
    decreases s.len() - i,
{
    if i < s.len() {
        assert(s.take(s.len() - 1) == s.drop_last());
        lemma_digits_grow(s.drop_last(), i);
        assert(s.drop_last().take(i) == s.take(i));
    } else {
        assert(s.take(i) == s);
    }
}

/// Parses an unsigned integer no larger than `max`, the way `str::parse` does.
pub fn parse_uint(s: &[char], max: u64) -> (r: Option<u64>)
    ensures
        match parse_bounded(s@, max as nat) {
            Some(v) => r == Some(v as u64),
            None => r is None,
        },
{
    let start: usize = if s.len() > 0 && s[0] == '+' { 1 } else { 0 };
    let ghost d = unsigned_digits(s@);
    assert(d == s@.skip(start as int));
    if start >= s.len() {
        return None;
    }
    let mut acc: u64 = 0;
    let mut i: usize = start;
    while i < s.len()
        invariant
            start <= i <= s@.len(),
            start < s@.len(),
            d == s@.skip(start as int),
            d == unsigned_digits(s@),
            acc as nat == digits_value(d.take(i - start)),
            acc <= max,
            forall|k: int| 0 <= k < i - start ==> is_digit(#[trigger] d[k]),
        decreases s@.len() - i,
    {
        let c = s[i];
        proof {
            assert(d.take(i - start + 1).drop_last() == d.take(i - start));
            assert(d[i - start] == c);
        }
        if !('0' <= c && c <= '9') {
            assert(!is_digit(d[i - start]));
            assert(!(forall|k: int| 0 <= k < d.len() ==> is_digit(#[trigger] d[k])));
            assert(parse_decimal(s@) is None);
            return None;
        }
        let v = (c as u32 - '0' as u32) as u64;
        assert(v as nat == digit_value(d[i - start]));
        let too_big = v > max || acc > (max - v) / 10;
        if too_big {
            proof {
                if v <= max {
                    assert(acc * 10 + v > max) by (nonlinear_arith)
                        requires acc > (max - v) / 10, v <= max;
                }
                assert(digits_value(d.take(i - start + 1)) == acc * 10 + v);
                lemma_digits_grow(d, i - start + 1);
                assert(digits_value(d) > max);
                if let Some(x) = parse_decimal(s@) {
                    assert(x == digits_value(d));
                }
            }
            return None;
        }
        assert(acc * 10 + v <= max) by (nonlinear_arith)
            requires acc <= (max - v) / 10, v <= max;
        acc = acc * 10 + v;
        i = i + 1;
    }
    assert(d.take(d.len() as int) == d);
    Some(acc)
}


/// Whether `p` occurs anywhere in `s` (`str::contains`).
pub open spec fn contains(s: Seq<char>, p: Seq<char>) -> bool {
    exists|i: int| 0 <= i <= s.len() - p.len() && #[trigger] s.skip(i).take(p.len() as int) == p
}

/// Whether `s` ends with `p`.
pub open spec fn ends_with(s: Seq<char>, p: Seq<char>) -> bool {
    p.len() <= s.len() && s.skip(s.len() - p.len()) == p
}

/// Whether `p` occurs anywhere in `s`.
pub fn has_substring(s: &[char], p: &[char]) -> (r: bool)
    ensures
        r == contains(s@, p@),
{
    if p.len() > s.len() {
        return false;
    }
    let limit = s.len() - p.len();
    let mut i: usize = 0;
    loop
        invariant
            p@.len() <= s@.len(),
            limit == s@.len() - p@.len(),
            i <= limit,
            forall|k: int| 0 <= k < i ==> #[trigger] s@.skip(k).take(p@.len() as int) != p@,
        decreases limit - i,
    {
        if occurs_at(s, p, i) {
            return true;
        }
        if i == limit {
            return false;
        }
        i = i + 1;
    }
}

/// Whether `s` ends with `p`.
pub fn has_suffix(s: &[char], p: &[char]) -> (r: bool)
    ensures
        r == ends_with(s@, p@),
{
    if p.len() > s.len() {
        return false;
    }
    let r = occurs_at(s, p, s.len() - p.len());
    assert(s@.skip(s@.len() - p@.len()).take(p@.len() as int) == s@.skip(s@.len() - p@.len()));
    r
}

/// A setting read from the environment: its value when it is set and not
/// empty, otherwise the default.
pub open spec fn setting(value: Option<Seq<char>>, default: Seq<char>) -> Seq<char> {
    match value {
        Some(v) => if v.len() > 0 { v } else { default },
        None => default,
    }
}

/// The value of a setting, or its default when it is unset or empty.
pub fn setting_or(value: Option<&str>, default: &str) -> (r: String)
    ensures
        r@ == setting(
            match value {
                Some(v) => Some(v@),
                None => None,
            },
            default@,
        ),
{
    match value {
        Some(v) => {
            if !v.is_empty() {
                return v.to_owned();
            }
            default.to_owned()
        },
        None => default.to_owned(),
    }
}

/// The message a failed command is reported with: what it printed on
/// standard error, trimmed, or `fallback` when it printed nothing.
pub open spec fn failure_text(stderr: Seq<char>, fallback: Seq<char>) -> Seq<char> {
    if trim(stderr).len() > 0 {
        trim(stderr)
    } else {
        fallback
    }
}

/// The message a failed command is reported with.
pub fn failure_message(stderr: &str, fallback: String) -> (r: String)
    ensures
        r@ == failure_text(stderr@, fallback@),
{
    let t = trim_chars(chars_of(stderr).as_slice());
    if t.len() > 0 {
        string_of(t.as_slice())
    } else {
        fallback
    }
}

/// `Path::join` of a directory and a relative file name: the name alone after
/// an empty directory, and the two with exactly one `/` between them
/// otherwise.
pub open spec fn joined_path(dir: Seq<char>, name: Seq<char>) -> Seq<char> {
    if dir.len() == 0 {
        name
    } else if dir.last() == '/' {
        dir + name
    } else {
        dir + "/"@ + name
    }
}

/// A relative file name inside a directory.
pub fn file_in(dir: &str, name: &str) -> (r: String)
    ensures
        r@ == joined_path(dir@, name@),
{
    let d = chars_of(dir);
    let mut v = copy_chars(d.as_slice());
    if d.len() > 0 && d[d.len() - 1] != '/' {
        v.push('/');
        proof {
            reveal_strlit("/");
        }
    }
    v.extend_from_slice(chars_of(name).as_slice());
    string_of(v.as_slice())
}

// ----------------------------------------------------------- round trips

/// No piece of a split holds the separator.
pub proof fn lemma_split_pieces(s: Seq<char>, sep: char)
    ensures
        forall|i: int| 0 <= i < split(s, sep).len() ==> !(#[trigger] split(s, sep)[i]).contains(sep),
    decreases s.len(),
{
    if s.len() > 0 {
        lemma_split_pieces(s.drop_last(), sep);
        lemma_split_nonempty(s.drop_last(), sep);
        let rest = split(s.drop_last(), sep);
        if s.last() == sep {
            assert forall|i: int| 0 <= i < split(s, sep).len() implies !(#[trigger] split(s, sep)[i]).contains(sep) by {
                if i < rest.len() {
                    assert(split(s, sep)[i] == rest[i]);
                } else {
                    assert(split(s, sep)[i] == Seq::<char>::empty());
                }
            }
        } else {
            let last = rest.len() - 1;
            assert forall|i: int| 0 <= i < split(s, sep).len() implies !(#[trigger] split(s, sep)[i]).contains(sep) by {
                if i < last {
                    assert(split(s, sep)[i] == rest[i]);
                } else {
                    let q = rest[last].push(s.last());
                    assert(split(s, sep)[i] == q);
                    if q.contains(sep) {
                        let j = choose|j: int| 0 <= j < q.len() && q[j] == sep;
                        if j < rest[last].len() {
                            assert(rest[last][j] == sep);
                            assert(rest[last].contains(sep));
                        }
                    }
                }
            }
        }
    }
}

/// A text without the separator is one piece.
pub proof fn lemma_split_none(s: Seq<char>, sep: char)
    requires
        !s.contains(sep),
    ensures
        split(s, sep) == seq![s],
    decreases s.len(),
{
    if s.len() > 0 {
        assert(!s.drop_last().contains(sep)) by {
            if s.drop_last().contains(sep) {
                let j = choose|j: int| 0 <= j < s.drop_last().len() && s.drop_last()[j] == sep;
                assert(s[j] == sep);
            }
        }
        lemma_split_none(s.drop_last(), sep);
        assert(s.last() != sep) by {
            assert(s[s.len() - 1] == s.last());
        }
        assert(s.drop_last().push(s.last()) =~= s);
        assert(split(s, sep) =~= seq![s]);
    } else {
        assert(s =~= Seq::<char>::empty());
        assert(split(s, sep) =~= seq![s]);
    }
}

/// Splitting text joined at a separator splits each side.
pub proof fn lemma_split_append(x: Seq<char>, y: Seq<char>, sep: char)
    ensures
        split(x + seq![sep] + y, sep) == split(x, sep) + split(y, sep),
    decreases y.len(),
{
    let z = x + seq![sep] + y;
    if y.len() == 0 {
        assert(z.drop_last() =~= x);
        assert(z.last() == sep);
        assert(split(z, sep) =~= split(x, sep) + split(y, sep));
    } else {
        lemma_split_append(x, y.drop_last(), sep);
        lemma_split_nonempty(y.drop_last(), sep);
        assert(z.drop_last() =~= x + seq![sep] + y.drop_last());
        assert(z.last() == y.last());
        let a = split(x, sep);
        let b = split(y.drop_last(), sep);
        if y.last() == sep {
            assert(split(z, sep) =~= (a + b).push(Seq::<char>::empty()));
            assert(split(y, sep) =~= b.push(Seq::<char>::empty()));
            assert((a + b).push(Seq::<char>::empty()) =~= a + b.push(Seq::<char>::empty()));
        } else {
            let ab = a + b;
            assert(split(z, sep) == ab.update(ab.len() - 1, ab.last().push(y.last())));
            assert(split(y, sep) == b.update(b.len() - 1, b.last().push(y.last())));
            assert(ab.last() == b.last());
            assert(ab.update(ab.len() - 1, ab.last().push(y.last())) =~= a + b.update(b.len() - 1, b.last().push(y.last())));
        }
    }
}

/// Each piece after the first, with a space in front.
pub open spec fn spaced(parts: Seq<Seq<char>>) -> Seq<Seq<char>> {
    Seq::new(parts.len(), |i: int| if i == 0 { parts[0] } else { seq![' '] + parts[i] })
}

/// Text joined with `"; "` splits at `;` into its parts, each after the first
/// with the space in front of it.
pub proof fn lemma_join_split(parts: Seq<Seq<char>>)
    requires
        parts.len() >= 1,
        forall|i: int| 0 <= i < parts.len() ==> !(#[trigger] parts[i]).contains(';'),
    ensures
        split(join(parts, "; "@), ';') == spaced(parts),
    decreases parts.len(),
{
    reveal_strlit("; ");
    if parts.len() == 1 {
        lemma_split_none(parts[0], ';');
        assert(split(join(parts, "; "@), ';') =~= spaced(parts));
    } else {
        let dl = parts.drop_last();
        lemma_join_split(dl);
        let last = parts.last();
        assert(!(seq![' '] + last).contains(';')) by {
            if (seq![' '] + last).contains(';') {
                let j = choose|j: int| 0 <= j < (seq![' '] + last).len() && (seq![' '] + last)[j] == ';';
                assert(last[j - 1] == ';');
                assert(parts[parts.len() - 1] == last);
            }
        }
        assert(join(parts, "; "@) =~= join(dl, "; "@) + seq![';'] + (seq![' '] + last));
        lemma_split_append(join(dl, "; "@), seq![' '] + last, ';');
        lemma_split_none(seq![' '] + last, ';');
        assert(split(join(parts, "; "@), ';') =~= spaced(parts));
    }
}

/// Whitespace is gone from the front of `trim_start(s)`.
pub proof fn lemma_trim_start_shape(s: Seq<char>)
    ensures
        trim_start(s).len() == 0 || !is_ws(trim_start(s)[0]),
        trim_start(s) == s.skip(s.len() - trim_start(s).len()),
        trim_start(s).len() <= s.len(),
    decreases s.len(),
{
    if s.len() > 0 && is_ws(s[0]) {
        lemma_trim_start_shape(s.drop_first());
        assert(s.drop_first().skip(s.drop_first().len() - trim_start(s.drop_first()).len()) =~= s.skip(s.len() - trim_start(s).len()));
    } else {
        assert(s.skip(0) =~= s);
    }
}

/// Whitespace is gone from the back of `trim_end(s)`, which is a prefix of `s`.
pub proof fn lemma_trim_end_shape(s: Seq<char>)
    ensures
        trim_end(s).len() == 0 || !is_ws(trim_end(s).last()),
        trim_end(s) == s.take(trim_end(s).len() as int),
        trim_end(s).len() <= s.len(),
    decreases s.len(),
{
    if s.len() > 0 && is_ws(s.last()) {
        lemma_trim_end_shape(s.drop_last());
        assert(s.drop_last().take(trim_end(s).len() as int) =~= s.take(trim_end(s).len() as int));
    } else {
        assert(s.take(s.len() as int) =~= s);
    }
}

/// Trimming twice is trimming once.
pub proof fn lemma_trim_twice(s: Seq<char>)
    ensures
        trim(trim(s)) == trim(s),
{
    let t0 = trim_start(s);
    lemma_trim_start_shape(s);
    let u = trim_end(t0);
    lemma_trim_end_shape(t0);
    if u.len() > 0 {
        assert(u[0] == t0[0]);
    }
    assert(trim_start(u) == u);
    assert(trim_end(u) == u);
}

/// A space in front does not survive trimming.
pub proof fn lemma_trim_space(p: Seq<char>)
    ensures
        trim(seq![' '] + p) == trim(p),
{
    let s = seq![' '] + p;
    assert(is_ws(s[0]));
    assert(s.drop_first() =~= p);
}

/// Trimming keeps only characters that were there.
pub proof fn lemma_trim_inside(s: Seq<char>, c: char)
    requires
        !s.contains(c),
    ensures
        !trim(s).contains(c),
{
    lemma_trim_start_shape(s);
    let t0 = trim_start(s);
    lemma_trim_end_shape(t0);
    let k = s.len() - t0.len();
    if trim(s).contains(c) {
        let j = choose|j: int| 0 <= j < trim(s).len() && trim(s)[j] == c;
        assert(trim(s)[j] == t0[j]);
        assert(t0[j] == s[k + j]);
    }
}

} // verus!
