//! Character-level text utilities, each proved against a specification over
//! `Seq<char>`.

use vstd::prelude::*;
use vstd::std_specs::iter::IteratorSpec;

verus! {

// ---------------------------------------------------------------------------
// Specifications
// ---------------------------------------------------------------------------

/// Unicode `White_Space`, the set that `char::is_whitespace` tests.
pub open spec fn is_space(c: char) -> bool {
    let u = c as u32;
    ||| 0x9 <= u <= 0xD
    ||| u == 0x20
    ||| u == 0x85
    ||| u == 0xA0
    ||| u == 0x1680
    ||| 0x2000 <= u <= 0x200A
    ||| u == 0x2028
    ||| u == 0x2029
    ||| u == 0x202F
    ||| u == 0x205F
    ||| u == 0x3000
}

/// `s` without its leading whitespace.
pub open spec fn trim_start_seq(s: Seq<char>) -> Seq<char>
    decreases s.len(),
{
    if s.len() > 0 && is_space(s[0]) {
        trim_start_seq(s.drop_first())
    } else {
        s
    }
}

/// `s` without its trailing whitespace.
pub open spec fn trim_end_seq(s: Seq<char>) -> Seq<char>
    decreases s.len(),
{
    if s.len() > 0 && is_space(s.last()) {
        trim_end_seq(s.drop_last())
    } else {
        s
    }
}

/// `s` without leading and trailing whitespace (`str::trim`).
pub open spec fn trim_seq(s: Seq<char>) -> Seq<char> {
    trim_end_seq(trim_start_seq(s))
}

/// `s` without any trailing occurrences of `c` (`str::trim_end_matches` with a char).
pub open spec fn strip_end_seq(s: Seq<char>, c: char) -> Seq<char>
    decreases s.len(),
{
    if s.len() > 0 && s.last() == c {
        strip_end_seq(s.drop_last(), c)
    } else {
        s
    }
}

/// Does `pat` occur in `s` at position `i`?
pub open spec fn occurs_at(s: Seq<char>, i: int, pat: Seq<char>) -> bool {
    0 <= i && i + pat.len() <= s.len() && s.subrange(i, i + pat.len()) == pat
}

/// Every non-overlapping occurrence of `pat` in `s`, found from the left,
/// replaced by `rep` (`str::replace`, for a non-empty pattern).
pub open spec fn replace_seq(s: Seq<char>, pat: Seq<char>, rep: Seq<char>) -> Seq<char>
    recommends
        pat.len() > 0,
    decreases s.len(),
{
    if pat.len() == 0 || s.len() < pat.len() {
        s
    } else if s.take(pat.len() as int) == pat {
        rep + replace_seq(s.skip(pat.len() as int), pat, rep)
    } else {
        seq![s[0]] + replace_seq(s.drop_first(), pat, rep)
    }
}

/// The text of `s` before the first occurrence of `sep`, or all of `s` when
/// `sep` does not occur (the first item of `str::split`).
pub open spec fn before_first_seq(s: Seq<char>, sep: Seq<char>) -> Seq<char>
    recommends
        sep.len() > 0,
    decreases s.len(),
{
    if sep.len() == 0 || s.len() < sep.len() {
        s
    } else if s.take(sep.len() as int) == sep {
        Seq::empty()
    } else {
        seq![s[0]] + before_first_seq(s.drop_first(), sep)
    }
}

/// The pieces of `s` between occurrences of `c` (`str::split` with a char):
/// there is always one more piece than occurrences.
pub open spec fn split_seq(s: Seq<char>, c: char) -> Seq<Seq<char>>
    decreases s.len(),
{
    if s.len() == 0 {
        seq![Seq::empty()]
    } else {
        let pre = split_seq(s.drop_last(), c);
        if s.last() == c {
            pre.push(Seq::empty())
        } else {
            pre.update(pre.len() - 1, pre.last().push(s.last()))
        }
    }
}

/// The pieces joined with `sep` between consecutive pieces.
pub open spec fn join_seq(parts: Seq<Seq<char>>, sep: Seq<char>) -> Seq<char>
    decreases parts.len(),
{
    if parts.len() == 0 {
        Seq::empty()
    } else if parts.len() == 1 {
        parts[0]
    } else {
        join_seq(parts.drop_last(), sep) + sep + parts.last()
    }
}

/// The character of decimal digit `d`.
pub open spec fn digit_char(d: nat) -> char {
    ((48 + d) as u32) as char
}

/// The decimal numeral of `n`, without leading zeros.
pub open spec fn decimal_seq(n: nat) -> Seq<char>
    decreases n,
{
    if n < 10 {
        seq![digit_char(n)]
    } else {
        decimal_seq(n / 10).push(digit_char(n % 10))
    }
}

/// The code of `c` with ASCII capitals mapped to small letters.
pub open spec fn ascii_lower_code(c: char) -> u32 {
    let u = c as u32;
    if 65 <= u <= 90 {
        (u + 32) as u32
    } else {
        u
    }
}

/// Equality up to ASCII case (`str::eq_ignore_ascii_case`).
pub open spec fn eq_ignore_ascii_case_seq(a: Seq<char>, b: Seq<char>) -> bool {
    &&& a.len() == b.len()
    &&& forall|i: int| 0 <= i < a.len() ==> ascii_lower_code(#[trigger] a[i]) == ascii_lower_code(b[i])
}

/// The views of a sequence of strings.
pub open spec fn views(v: Seq<String>) -> Seq<Seq<char>> {
    v.map_values(|x: String| x@)
}

/// What `str::to_lowercase` returns for a string: the Unicode lowercase
/// mapping, a function of the string alone.
pub uninterp spec fn lowercase(s: Seq<char>) -> Seq<char>;

/// Every character of `s` is ASCII.
pub open spec fn ascii_only(s: Seq<char>) -> bool {
    forall|i: int| 0 <= i < s.len() ==> (#[trigger] s[i]) as u32 <= 127
}

/// `s` with the ASCII capitals `A`-`Z` mapped to `a`-`z` and every other
/// character kept.
pub open spec fn ascii_lower_seq(s: Seq<char>) -> Seq<char> {
    s.map_values(|c: char| ascii_lower_code(c) as char)
}

// ---------------------------------------------------------------------------
// Trusted items of std
// ---------------------------------------------------------------------------

/// Calls `String::push`, which appends one character.
#[verifier::external_body]
fn push_char(s: &mut String, c: char)
    ensures
        final(s)@ == old(s)@.push(c),
{
    s.push(c);
}

/// Calls `str::to_lowercase`; its result is named `lowercase` of the input.
/// On ASCII text the Unicode lowercase mapping that std documents is the one
/// of `char::to_ascii_lowercase` (whose documentation sends non-ASCII
/// lowercasing to `to_lowercase`): `A`-`Z` become `a`-`z`, every other ASCII
/// character stays; the contract says that much and no more of the mapping.
#[verifier::external_body]
pub(crate) fn to_lowercase(s: &str) -> (r: String)
    ensures
        r@ == lowercase(s@),
        ascii_only(s@) ==> r@ == ascii_lower_seq(s@),
{
    s.to_lowercase()
}

// ---------------------------------------------------------------------------
// Conversions between strings and character vectors
// ---------------------------------------------------------------------------

/// Copies the characters of a string slice into a vector.
pub fn chars_of(s: &str) -> (v: Vec<char>)
    ensures
        v@ == s@,
{
    let mut v: Vec<char> = Vec::new();
    let mut it = s.chars();
    proof {
        broadcast use vstd::string::group_string_axioms;
    }
    loop
        invariant
            v@ + it.remaining() == s@,
            it.obeys_prophetic_iter_laws(),
        ensures
            v@ == s@,
        decreases s@.len() - v@.len(),
    {
        broadcast use vstd::string::group_string_axioms;
        match it.next() {
            Some(c) => {
                v.push(c);
                assert(v@ + it.remaining() =~= s@);
            },
            None => {
                assert(v@ =~= s@);
                break;
            },
        }
    }
    v
}

/// A string of the characters `v[lo..hi]`.
pub fn string_of_range(v: &Vec<char>, lo: usize, hi: usize) -> (s: String)
    requires
        lo <= hi <= v@.len(),
    ensures
        s@ == v@.subrange(lo as int, hi as int),
{
    let mut s = String::new();
    let mut i = lo;
    while i < hi
        invariant
            lo <= i <= hi <= v@.len(),
            s@ == v@.subrange(lo as int, i as int),
        decreases hi - i,
    {
        push_char(&mut s, v[i]);
        assert(s@ =~= v@.subrange(lo as int, i + 1));
        i = i + 1;
    }
    s
}

/// A string of the characters of `v`.
pub fn string_of(v: &Vec<char>) -> (s: String)
    ensures
        s@ == v@,
{
    let s = string_of_range(v, 0, v.len());
    assert(v@.subrange(0, v@.len() as int) =~= v@);
    s
}

/// Appends the characters of `src` to `dst`.
fn push_all(dst: &mut Vec<char>, src: &Vec<char>)
    ensures
        final(dst)@ == old(dst)@ + src@,
{
    let ghost start = dst@;
    let mut i: usize = 0;
    while i < src.len()
        invariant
            i <= src@.len(),
            dst@ == start + src@.take(i as int),
        decreases src@.len() - i,
    {
        dst.push(src[i]);
        assert(src@.take(i + 1) =~= src@.take(i as int).push(src@[i as int]));
        i = i + 1;
    }
    assert(src@.take(src@.len() as int) =~= src@);
}

/// Does `pat` occur in `s` at position `i`?
fn matches_at(s: &Vec<char>, i: usize, pat: &Vec<char>) -> (r: bool)
    ensures
        r == occurs_at(s@, i as int, pat@),
{
    if i > s.len() || pat.len() > s.len() - i {
        return false;
    }
    let mut j: usize = 0;
    let n = s.len();
    while j < pat.len()
        invariant
            n == s@.len(),
            i + pat@.len() <= s@.len(),
            j <= pat@.len(),
            forall|k: int| 0 <= k < j ==> s@[i + k] == pat@[k],
        decreases pat@.len() - j,
    {
        if s[i + j] != pat[j] {
            assert(s@.subrange(i as int, i + pat@.len())[j as int] != pat@[j as int]);
            return false;
        }
        j = j + 1;
    }
    assert(s@.subrange(i as int, i + pat@.len()) =~= pat@);
    true
}

// ---------------------------------------------------------------------------
// Whitespace
// ---------------------------------------------------------------------------

/// Is `c` Unicode whitespace?
pub fn is_space_char(c: char) -> (r: bool)
    ensures
        r == is_space(c),
{
    let u = c as u32;
    (0x9 <= u && u <= 0xD) || u == 0x20 || u == 0x85 || u == 0xA0 || u == 0x1680 || (0x2000 <= u
        && u <= 0x200A) || u == 0x2028 || u == 0x2029 || u == 0x202F || u == 0x205F || u == 0x3000
}

proof fn lemma_trim_start_skip(s: Seq<char>, i: int)
    requires
        0 <= i < s.len(),
        is_space(s[i]),
    ensures
        trim_start_seq(s.skip(i)) == trim_start_seq(s.skip(i + 1)),
{
    assert(s.skip(i).drop_first() =~= s.skip(i + 1));
}

proof fn lemma_trim_end_take(s: Seq<char>, j: int)
    requires
        0 < j <= s.len(),
        is_space(s[j - 1]),
    ensures
        trim_end_seq(s.take(j)) == trim_end_seq(s.take(j - 1)),
{
    assert(s.take(j).drop_last() =~= s.take(j - 1));
}

/// `s` without leading and trailing whitespace.
pub fn trim(s: &str) -> (r: String)
    ensures
        r@ == trim_seq(s@),
{
    let v = chars_of(s);
    let n = v.len();
    let mut i: usize = 0;
    assert(v@.skip(0) =~= v@);
    while i < n && is_space_char(v[i])
        invariant
            i <= n == v@.len(),
            trim_start_seq(v@.skip(i as int)) == trim_start_seq(v@),
        decreases n - i,
    {
        proof {
            lemma_trim_start_skip(v@, i as int);
        }
        i = i + 1;
    }
    let ghost mid = v@.skip(i as int);
    assert(trim_start_seq(mid) == mid);
    let mut j: usize = n;
    assert(mid.take(mid.len() as int) =~= mid);
    while j > i && is_space_char(v[j - 1])
        invariant
            i <= j <= n == v@.len(),
            mid == v@.skip(i as int),
            trim_end_seq(mid.take(j - i)) == trim_end_seq(mid),
        decreases j - i,
    {
        proof {
            lemma_trim_end_take(mid, j - i);
        }
        j = j - 1;
    }
    assert(trim_end_seq(mid.take(j - i)) == mid.take(j - i));
    assert(mid.take(j - i) =~= v@.subrange(i as int, j as int));
    string_of_range(&v, i, j)
}

// ---------------------------------------------------------------------------
// Replacing, stripping, splitting, joining
// ---------------------------------------------------------------------------

proof fn lemma_replace_step(s: Seq<char>, i: int, pat: Seq<char>, rep: Seq<char>)
    requires
        0 <= i < s.len(),
        pat.len() > 0,
    ensures
        occurs_at(s, i, pat) ==> replace_seq(s.skip(i), pat, rep) == rep + replace_seq(
            s.skip(i + pat.len()),
            pat,
            rep,
        ),
        !occurs_at(s, i, pat) ==> replace_seq(s.skip(i), pat, rep) == seq![s[i]] + replace_seq(
            s.skip(i + 1),
            pat,
            rep,
        ),
{
    let t = s.skip(i);
    if t.len() >= pat.len() {
        assert(t.take(pat.len() as int) =~= s.subrange(i, i + pat.len()));
        assert(t.skip(pat.len() as int) =~= s.skip(i + pat.len()));
    }
    assert(t.drop_first() =~= s.skip(i + 1));
}

/// Every non-overlapping occurrence of `pat` in `s`, from the left, replaced by
/// `rep`.
pub fn replace_all(s: &str, pat: &str, rep: &str) -> (r: String)
    requires
        pat@.len() > 0,
    ensures
        r@ == replace_seq(s@, pat@, rep@),
{
    let v = chars_of(s);
    let p = chars_of(pat);
    let q = chars_of(rep);
    let mut out: Vec<char> = Vec::new();
    let mut i: usize = 0;
    assert(v@.skip(0) =~= v@);
    while i < v.len()
        invariant
            i <= v@.len(),
            p@ == pat@,
            p@.len() > 0,
            q@ == rep@,
            out@ + replace_seq(v@.skip(i as int), p@, q@) == replace_seq(v@, p@, q@),
        decreases v@.len() - i,
    {
        proof {
            lemma_replace_step(v@, i as int, p@, q@);
        }
        if matches_at(&v, i, &p) {
            let ghost before = out@;
            push_all(&mut out, &q);
            assert(out@ + replace_seq(v@.skip(i + p@.len()), p@, q@) =~= before + (q@
                + replace_seq(v@.skip(i + p@.len()), p@, q@)));
            i = i + p.len();
        } else {
            let ghost before = out@;
            out.push(v[i]);
            assert(out@ + replace_seq(v@.skip(i + 1), p@, q@) =~= before + (seq![v@[i as int]]
                + replace_seq(v@.skip(i + 1), p@, q@)));
            i = i + 1;
        }
    }
    assert(v@.skip(i as int) =~= Seq::<char>::empty());
    assert(out@ + Seq::<char>::empty() =~= out@);
    string_of(&out)
}

/// `s` without any trailing occurrences of `c`.
pub fn strip_end(s: &str, c: char) -> (r: String)
    ensures
        r@ == strip_end_seq(s@, c),
{
    let v = chars_of(s);
    let mut j: usize = v.len();
    assert(v@.take(v@.len() as int) =~= v@);
    while j > 0 && v[j - 1] == c
        invariant
            j <= v@.len(),
            strip_end_seq(v@.take(j as int), c) == strip_end_seq(v@, c),
        decreases j,
    {
        assert(v@.take(j as int).drop_last() =~= v@.take(j - 1));
        j = j - 1;
    }
    assert(v@.take(j as int) =~= v@.subrange(0, j as int));
    string_of_range(&v, 0, j)
}

/// The text of `s` before the first occurrence of `sep` (all of `s` when
/// there is none).
pub fn before_first(s: &str, sep: &str) -> (r: String)
    requires
        sep@.len() > 0,
    ensures
        r@ == before_first_seq(s@, sep@),
{
    let v = chars_of(s);
    let p = chars_of(sep);
    let mut i: usize = 0;
    assert(v@.skip(0) =~= v@);
    while i < v.len()
        invariant
            i <= v@.len(),
            v@ == s@,
            p@ == sep@,
            p@.len() > 0,
            v@.take(i as int) + before_first_seq(v@.skip(i as int), p@) == before_first_seq(
                v@,
                p@,
            ),
        decreases v@.len() - i,
    {
        let ghost t = v@.skip(i as int);
        if matches_at(&v, i, &p) {
            assert(t.take(p@.len() as int) =~= v@.subrange(i as int, i + p@.len()));
            assert(v@.take(i as int) + Seq::<char>::empty() =~= v@.take(i as int));
            assert(t.len() >= p@.len());
            assert(before_first_seq(t, p@) == Seq::<char>::empty());
            assert(v@.take(i as int) =~= v@.subrange(0, i as int));
            return string_of_range(&v, 0, i);
        }
        proof {
            if t.len() >= p@.len() {
                assert(t.take(p@.len() as int) =~= v@.subrange(i as int, i + p@.len()));
            }
        }
        assert(t.drop_first() =~= v@.skip(i + 1));
        assert(v@.take(i + 1) =~= v@.take(i as int) + seq![v@[i as int]]);
        assert(v@.take(i as int) + (seq![v@[i as int]] + before_first_seq(v@.skip(i + 1), p@))
            =~= v@.take(i + 1) + before_first_seq(v@.skip(i + 1), p@));
        i = i + 1;
    }
    assert(v@.skip(i as int) =~= Seq::<char>::empty());
    assert(v@.take(i as int) =~= v@);
    assert(v@ + Seq::<char>::empty() =~= v@);
    string_of(&v)
}

/// The pieces of `s` between occurrences of `c`.
pub fn split_on(s: &str, c: char) -> (r: Vec<String>)
    ensures
        views(r@) == split_seq(s@, c),
{
    let v = chars_of(s);
    let mut done: Vec<String> = Vec::new();
    let mut cur: Vec<char> = Vec::new();
    let mut i: usize = 0;
    assert(v@.take(0) =~= Seq::<char>::empty());
    assert(views(done@).push(cur@) =~= split_seq(v@.take(0), c));
    while i < v.len()
        invariant
            i <= v@.len(),
            views(done@).push(cur@) == split_seq(v@.take(i as int), c),
        decreases v@.len() - i,
    {
        let ghost pre = split_seq(v@.take(i as int), c);
        assert(v@.take(i + 1).drop_last() =~= v@.take(i as int));
        assert(v@.take(i + 1).last() == v@[i as int]);
        if v[i] == c {
            let piece = string_of(&cur);
            done.push(piece);
            cur = Vec::new();
            assert(views(done@).push(cur@) =~= pre.push(Seq::empty()));
        } else {
            cur.push(v[i]);
            assert(views(done@).push(cur@) =~= pre.update(pre.len() - 1, pre.last().push(
                v@[i as int],
            )));
        }
        i = i + 1;
    }
    assert(v@.take(i as int) =~= v@);
    let last = string_of(&cur);
    done.push(last);
    assert(views(done@) =~= split_seq(v@, c));
    done
}

/// The strings of `parts` joined with `sep` between consecutive ones.
pub fn join(parts: &Vec<String>, sep: &str) -> (r: String)
    ensures
        r@ == join_seq(views(parts@), sep@),
{
    let mut out = String::new();
    let mut i: usize = 0;
    while i < parts.len()
        invariant
            i <= parts@.len(),
            out@ == join_seq(views(parts@.take(i as int)), sep@),
        decreases parts@.len() - i,
    {
        assert(views(parts@.take(i + 1)).drop_last() =~= views(parts@.take(i as int)));
        assert(views(parts@.take(i + 1)).last() == parts@[i as int]@);
        if i > 0 {
            out.append(sep);
        }
        out.append(parts[i].as_str());
        if i == 0 {
            assert(views(parts@.take(1)) =~= seq![parts@[0]@]);
            assert(out@ =~= parts@[0]@);
        }
        i = i + 1;
    }
    assert(parts@.take(parts@.len() as int) =~= parts@);
    out
}

/// The decimal numeral of `n`.
pub fn decimal(n: u64) -> (r: String)
    ensures
        r@ == decimal_seq(n as nat),
    decreases n,
{
    let mut s = if n < 10 {
        String::new()
    } else {
        decimal(n / 10)
    };
    let d: u32 = (n % 10) as u32;
    let c: char = char_of_digit(d);
    push_char(&mut s, c);
    if n < 10 {
        assert(s@ =~= seq![digit_char(n as nat)]);
    }
    s
}

/// The character of decimal digit `d`.
fn char_of_digit(d: u32) -> (c: char)
    requires
        d < 10,
    ensures
        c == digit_char(d as nat),
{
    let b: u8 = (48 + d) as u8;
    b as char
}

/// Equality up to ASCII case.
pub fn eq_ignore_ascii_case(a: &str, b: &str) -> (r: bool)
    ensures
        r == eq_ignore_ascii_case_seq(a@, b@),
{
    let x = chars_of(a);
    let y = chars_of(b);
    if x.len() != y.len() {
        return false;
    }
    let mut i: usize = 0;
    while i < x.len()
        invariant
            x@ == a@,
            y@ == b@,
            x@.len() == y@.len(),
            i <= x@.len(),
            forall|k: int| 0 <= k < i ==> ascii_lower_code(#[trigger] x@[k]) == ascii_lower_code(y@[k]),
        decreases x@.len() - i,
    {
        if lower_code(x[i]) != lower_code(y[i]) {
            return false;
        }
        i = i + 1;
    }
    true
}

/// The code of `c` with ASCII capitals mapped to small letters.
fn lower_code(c: char) -> (u: u32)
    ensures
        u == ascii_lower_code(c),
{
    let u = c as u32;
    if 65 <= u && u <= 90 {
        u + 32
    } else {
        u
    }
}

} // verus!

verus! {

/// Do two texts hold the same characters?
pub fn text_eq(a: &str, b: &str) -> (r: bool)
    ensures
        r == (a@ == b@),
{
    let x = chars_of(a);
    let y = chars_of(b);
    if x.len() != y.len() {
        return false;
    }
    let mut i: usize = 0;
    while i < x.len()
        invariant
            x@ == a@,
            y@ == b@,
            x@.len() == y@.len(),
            i <= x@.len(),
            forall|k: int| 0 <= k < i ==> x@[k] == y@[k],
        decreases x@.len() - i,
    {
        if x[i] != y[i] {
            return false;
        }
        i = i + 1;
    }
    assert(x@ =~= y@);
    true
}

} // verus!

verus! {

proof fn lemma_trim_start_shape(s: Seq<char>)
    ensures
        exists|k: int| 0 <= k <= s.len() && trim_start_seq(s) == s.skip(k),
        trim_start_seq(s).len() == 0 || !is_space(trim_start_seq(s)[0]),
    decreases s.len(),
{
    if s.len() > 0 && is_space(s[0]) {
        lemma_trim_start_shape(s.drop_first());
        let k = choose|k: int| 0 <= k <= s.drop_first().len() && trim_start_seq(s.drop_first())
            == s.drop_first().skip(k);
        assert(s.drop_first().skip(k) =~= s.skip(k + 1));
    } else {
        assert(s.skip(0) =~= s);
    }
}

proof fn lemma_trim_end_shape(s: Seq<char>)
    ensures
        exists|k: int| 0 <= k <= s.len() && trim_end_seq(s) == s.take(k),
        trim_end_seq(s).len() == 0 || !is_space(trim_end_seq(s).last()),
    decreases s.len(),
{
    if s.len() > 0 && is_space(s.last()) {
        lemma_trim_end_shape(s.drop_last());
        let k = choose|k: int| 0 <= k <= s.drop_last().len() && trim_end_seq(s.drop_last())
            == s.drop_last().take(k);
        assert(s.drop_last().take(k) =~= s.take(k));
    } else {
        assert(s.take(s.len() as int) =~= s);
    }
}

/// Trimming twice is trimming once.
pub proof fn lemma_trim_idempotent(s: Seq<char>)
    ensures
        trim_seq(trim_seq(s)) == trim_seq(s),
{
    let t = trim_start_seq(s);
    lemma_trim_start_shape(s);
    let u = trim_end_seq(t);
    lemma_trim_end_shape(t);
    let k = choose|k: int| 0 <= k <= t.len() && u == t.take(k);
    if u.len() > 0 {
        assert(u[0] == t[0]);
    }
    assert(trim_start_seq(u) == u);
    assert(trim_end_seq(u) == u);
}

/// Trimming keeps text ASCII.
pub proof fn lemma_trim_ascii(s: Seq<char>)
    requires
        ascii_only(s),
    ensures
        ascii_only(trim_seq(s)),
{
    let t = trim_start_seq(s);
    lemma_trim_start_shape(s);
    let k = choose|k: int| 0 <= k <= s.len() && t == s.skip(k);
    lemma_trim_end_shape(t);
    let k2 = choose|k2: int| 0 <= k2 <= t.len() && trim_end_seq(t) == t.take(k2);
    assert forall|i: int| 0 <= i < trim_seq(s).len() implies (#[trigger] trim_seq(s)[i]) as u32
        <= 127 by {
        assert(trim_seq(s)[i] == s[k + i]);
    }
}

/// Text that neither starts nor ends with whitespace is its own trim.
pub proof fn lemma_trim_without_space(s: Seq<char>)
    requires
        s.len() > 0 ==> !is_space(s[0]) && !is_space(s.last()),
    ensures
        trim_seq(s) == s,
{
    assert(trim_start_seq(s) == s);
    assert(trim_end_seq(s) == s);
}

/// Does `pat` occur anywhere in `s`?
pub open spec fn occurs_in(s: Seq<char>, pat: Seq<char>) -> bool {
    exists|i: int| occurs_at(s, i, pat)
}

/// Replacing a pattern that does not occur changes nothing.
pub proof fn lemma_replace_absent(s: Seq<char>, pat: Seq<char>, rep: Seq<char>)
    requires
        pat.len() > 0,
        !occurs_in(s, pat),
    ensures
        replace_seq(s, pat, rep) == s,
    decreases s.len(),
{
    if s.len() >= pat.len() {
        assert(s.take(pat.len() as int) =~= s.subrange(0, pat.len() as int));
        assert(!occurs_at(s, 0, pat));
        let t = s.drop_first();
        assert forall|i: int| !occurs_at(t, i, pat) by {
            if occurs_at(t, i, pat) {
                assert(s.subrange(i + 1, i + 1 + pat.len()) =~= t.subrange(i, i + pat.len()));
                assert(occurs_at(s, i + 1, pat));
            }
        }
        lemma_replace_absent(t, pat, rep);
        assert(seq![s[0]] + t =~= s);
    }
}

/// A pattern that needs a character `s` does not hold does not occur in `s`.
pub proof fn lemma_absent_by_char(s: Seq<char>, pat: Seq<char>, k: int)
    requires
        0 <= k < pat.len(),
        forall|i: int| 0 <= i < s.len() ==> #[trigger] s[i] != pat[k],
    ensures
        !occurs_in(s, pat),
{
    assert forall|i: int| !occurs_at(s, i, pat) by {
        if occurs_at(s, i, pat) {
            assert(s.subrange(i, i + pat.len())[k] == s[i + k]);
        }
    }
}

/// Replacing in text that starts with the pattern.
pub proof fn lemma_replace_prefix(pat: Seq<char>, t: Seq<char>, rep: Seq<char>)
    requires
        pat.len() > 0,
    ensures
        replace_seq(pat + t, pat, rep) == rep + replace_seq(t, pat, rep),
{
    let s = pat + t;
    assert(s.take(pat.len() as int) =~= pat);
    assert(s.skip(pat.len() as int) =~= t);
}

/// Stripping a character from text that does not end with it changes nothing.
pub proof fn lemma_strip_end_absent(s: Seq<char>, c: char)
    requires
        s.len() == 0 || s.last() != c,
    ensures
        strip_end_seq(s, c) == s,
{
}

/// Stripping a character removes one more copy of it at the end.
pub proof fn lemma_strip_end_push(s: Seq<char>, c: char)
    ensures
        strip_end_seq(s.push(c), c) == strip_end_seq(s, c),
{
    assert(s.push(c).drop_last() =~= s);
}

/// Splitting on a character and joining the pieces with it gives the text
/// back; there is always at least one piece, and no piece holds the
/// character.
pub proof fn lemma_split_join(s: Seq<char>, c: char)
    ensures
        join_seq(split_seq(s, c), seq![c]) == s,
        split_seq(s, c).len() >= 1,
        forall|i: int, j: int|
            0 <= i < split_seq(s, c).len() && 0 <= j < split_seq(s, c)[i].len() ==> #[trigger] split_seq(
                s,
                c,
            )[i][j] != c,
    decreases s.len(),
{
    if s.len() > 0 {
        let t = s.drop_last();
        let x = s.last();
        let pre = split_seq(t, c);
        lemma_split_join(t, c);
        let n = pre.len();
        let out = split_seq(s, c);
        if x == c {
            assert(out == pre.push(Seq::empty()));
            assert(out.drop_last() =~= pre);
            assert(join_seq(out, seq![c]) == join_seq(pre, seq![c]) + seq![c] + Seq::<char>::empty());
            assert(t + seq![c] + Seq::<char>::empty() =~= s);
            assert forall|i: int, j: int| 0 <= i < out.len() && 0 <= j < out[i].len() implies #[trigger] out[i][j]
                != c by {
                assert(out[i] == pre[i]);
            }
        } else {
            let l = pre.last();
            assert(out == pre.update(n - 1, l.push(x)));
            if n == 1 {
                assert(join_seq(pre, seq![c]) == l);
                assert(l.push(x) =~= s);
            } else {
                assert(out.drop_last() =~= pre.drop_last());
                assert(join_seq(out, seq![c]) == join_seq(pre.drop_last(), seq![c]) + seq![c] + l.push(
                    x,
                ));
                assert(join_seq(pre, seq![c]) == join_seq(pre.drop_last(), seq![c]) + seq![c] + l);
                assert(join_seq(pre.drop_last(), seq![c]) + seq![c] + l.push(x) =~= t.push(x));
                assert(t.push(x) =~= s);
            }
            assert forall|i: int, j: int| 0 <= i < out.len() && 0 <= j < out[i].len() implies #[trigger] out[i][j]
                != c by {
                if i < n - 1 {
                    assert(out[i] == pre[i]);
                } else if j < l.len() {
                    assert(out[i][j] == l[j]);
                }
            }
        }
    }
}

/// The number that a string of decimal digits reads as.
pub open spec fn digits_value(s: Seq<char>) -> nat
    decreases s.len(),
{
    if s.len() == 0 {
        0
    } else {
        digits_value(s.drop_last()) * 10 + ((s.last() as u32) - 48) as nat
    }
}

/// The decimal numeral of `n` is made of the digits `0`-`9`, reads back as
/// `n`, and has no leading zero (it is `0` only for zero).
pub proof fn lemma_decimal_reads_back(n: nat)
    ensures
        decimal_seq(n).len() >= 1,
        forall|i: int| 0 <= i < decimal_seq(n).len() ==> 48 <= (#[trigger] decimal_seq(n)[i]) as u32 <= 57,
        digits_value(decimal_seq(n)) == n,
        decimal_seq(n)[0] == '0' ==> n == 0,
    decreases n,
{
    broadcast use vstd::utf8::char_u32_cast;

    if n < 10 {
        let c = digit_char(n);
        assert(c as u32 == 48 + n) by {
            assert(((48 + n) as u32) as char as u32 == 48 + n);
        }
        assert(seq![c].drop_last() =~= Seq::<char>::empty());
        assert(digits_value(seq![c]) == digits_value(Seq::<char>::empty()) * 10 + ((c as u32) - 48) as nat);
    } else {
        lemma_decimal_reads_back(n / 10);
        let p = decimal_seq(n / 10);
        let d = digit_char(n % 10);
        assert(d as u32 == 48 + n % 10) by {
            assert(((48 + n % 10) as u32) as char as u32 == 48 + n % 10);
        }
        assert(p.push(d).drop_last() =~= p);
        assert(decimal_seq(n) == p.push(d));
        assert(digits_value(p.push(d)) == digits_value(p) * 10 + ((d as u32) - 48) as nat);
        assert(n == (n / 10) * 10 + n % 10);
        assert(decimal_seq(n)[0] == p[0]);
    }
}

} // verus!
