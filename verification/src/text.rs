//! Character-level text helpers: trimming, splitting, searching and the
//! decimal rendering of integers.
use vstd::prelude::*;

verus! {

// ------------------------------------------------------------------
// Building strings
// ------------------------------------------------------------------

/// Appends one character to a string (std `String::push`).
#[verifier::external_body]
pub(crate) fn push_char(s: &mut String, c: char)
    ensures
        final(s)@ == old(s)@.push(c),
{
    s.push(c)
}

/// The characters of a string slice, in order.
pub fn chars_of(s: &str) -> (v: Vec<char>)
    ensures
        v@ == s@,
{
    let mut v: Vec<char> = Vec::new();
    for c in it: s.chars()
        invariant
            v@ == it.seq().take(it.index()),
    {
        v.push(c);
    }
    assert(v@ =~= s@);
    v
}

/// The string made of the characters `chars[start..end]`.
pub fn string_from_range(chars: &Vec<char>, start: usize, end: usize) -> (s: String)
    requires
        start <= end <= chars@.len(),
    ensures
        s@ == chars@.subrange(start as int, end as int),
{
    let mut s = String::new();
    let mut i = start;
    while i < end
        invariant
            start <= i <= end <= chars@.len(),
            s@ == chars@.subrange(start as int, i as int),
        decreases end - i,
    {
        push_char(&mut s, chars[i]);
        i = i + 1;
        assert(s@ =~= chars@.subrange(start as int, i as int));
    }
    s
}

/// Appends `t` to the string `s`.
pub fn append_str(s: &mut String, t: &str)
    ensures
        final(s)@ == old(s)@ + t@,
{
    s.append(t);
}

// ------------------------------------------------------------------
// White space and trimming
// ------------------------------------------------------------------

/// The characters with the Unicode `White_Space` property, which is what
/// `char::is_whitespace` and `str::trim` go by.
pub open spec fn is_white_space(c: char) -> bool {
    let u = c as u32;
    ||| 0x9 <= u <= 0xD
    ||| u == 0x20
    ||| u == 0x85
    ||| u == 0xA0
    ||| u == 0x1680
    ||| 0x2000 <= u <= 0x200A
    ||| u == 0x2028
    ||| u == 0x2029
    ||| u == 0x202F
    ||| u == 0x205F
    ||| u == 0x3000
}

/// Whether `c` is white space.
pub fn is_whitespace(c: char) -> (b: bool)
    ensures
        b == is_white_space(c),
{
    let u = c as u32;
    (0x9 <= u && u <= 0xD) || u == 0x20 || u == 0x85 || u == 0xA0 || u == 0x1680 || (0x2000
        <= u && u <= 0x200A) || u == 0x2028 || u == 0x2029 || u == 0x202F || u == 0x205F || u
        == 0x3000
}

/// `s` without its leading white space.
pub open spec fn trim_start_seq(s: Seq<char>) -> Seq<char>
    decreases s.len(),
{
    if s.len() > 0 && is_white_space(s[0]) {
        trim_start_seq(s.drop_first())
    } else {
        s
    }
}

/// `s` without its trailing white space.
pub open spec fn trim_end_seq(s: Seq<char>) -> Seq<char>
    decreases s.len(),
{
    if s.len() > 0 && is_white_space(s.last()) {
        trim_end_seq(s.drop_last())
    } else {
        s
    }
}

/// `s` without leading and trailing white space (`str::trim`).
pub open spec fn trim_seq(s: Seq<char>) -> Seq<char> {
    trim_end_seq(trim_start_seq(s))
}

/// Whether every character of `s` is white space.
pub open spec fn all_white_space(s: Seq<char>) -> bool {
    forall|k: int| 0 <= k < s.len() ==> is_white_space(#[trigger] s[k])
}

proof fn lemma_trim_start_skip(s: Seq<char>, i: int)
    requires
        0 <= i <= s.len(),
        forall|k: int| 0 <= k < i ==> is_white_space(#[trigger] s[k]),
    ensures
        trim_start_seq(s) == trim_start_seq(s.skip(i)),
    decreases i,
{
    if i > 0 {
        assert(s.drop_first().skip(i - 1) =~= s.skip(i));
        assert forall|k: int| 0 <= k < i - 1 implies is_white_space(#[trigger] s.drop_first()[k]) by {
            assert(s.drop_first()[k] == s[k + 1]);
        }
        lemma_trim_start_skip(s.drop_first(), i - 1);
    } else {
        assert(s.skip(0) =~= s);
    }
}

proof fn lemma_trim_end_take(s: Seq<char>, j: int)
    requires
        0 <= j <= s.len(),
        forall|k: int| j <= k < s.len() ==> is_white_space(#[trigger] s[k]),
    ensures
        trim_end_seq(s) == trim_end_seq(s.take(j)),
    decreases s.len() - j,
{
    if j < s.len() {
        assert(s.drop_last().take(j) =~= s.take(j));
        lemma_trim_end_take(s.drop_last(), j);
    } else {
        assert(s.take(j) =~= s);
    }
}

/// The bounds `(start, end)` of `chars` without its leading and trailing
/// white space.
fn trim_bounds(chars: &Vec<char>) -> (r: (usize, usize))
    ensures
        r.0 <= r.1 <= chars@.len(),
        chars@.subrange(r.0 as int, r.1 as int) == trim_seq(chars@),
{
    let n = chars.len();
    let mut i: usize = 0;
    while i < n && is_whitespace(chars[i])
        invariant
            i <= n == chars@.len(),
            forall|k: int| 0 <= k < i ==> is_white_space(#[trigger] chars@[k]),
        decreases n - i,
    {
        i = i + 1;
    }
    proof {
        lemma_trim_start_skip(chars@, i as int);
        if i < n {
            assert(!is_white_space(chars@.skip(i as int)[0]));
        }
        assert(trim_start_seq(chars@) == chars@.skip(i as int));
    }
    let mut j: usize = n;
    while j > i && is_whitespace(chars[j - 1])
        invariant
            i <= j <= n == chars@.len(),
            forall|k: int| j <= k < n ==> is_white_space(#[trigger] chars@[k]),
        decreases j,
    {
        j = j - 1;
    }
    proof {
        let t = chars@.skip(i as int);
        assert forall|k: int| j - i <= k < t.len() implies is_white_space(#[trigger] t[k]) by {
            assert(t[k] == chars@[k + i]);
        }
        lemma_trim_end_take(t, j - i);
        let u = t.take(j - i);
        if j > i {
            assert(u.last() == chars@[j - 1]);
        }
        assert(u =~= chars@.subrange(i as int, j as int));
    }
    (i, j)
}

/// `s` without leading and trailing white space (`str::trim`).
pub fn trim(s: &str) -> (t: String)
    ensures
        t@ == trim_seq(s@),
{
    let chars = chars_of(s);
    let (a, b) = trim_bounds(&chars);
    string_from_range(&chars, a, b)
}

proof fn lemma_trim_start_empty(s: Seq<char>)
    ensures
        (trim_start_seq(s).len() == 0) <==> all_white_space(s),
    decreases s.len(),
{
    if s.len() > 0 {
        lemma_trim_start_empty(s.drop_first());
        if all_white_space(s) {
            assert forall|k: int| 0 <= k < s.drop_first().len() implies is_white_space(
                #[trigger] s.drop_first()[k],
            ) by {
                assert(s.drop_first()[k] == s[k + 1]);
            }
        }
        if is_white_space(s[0]) && all_white_space(s.drop_first()) {
            assert forall|k: int| 0 <= k < s.len() implies is_white_space(#[trigger] s[k]) by {
                if k > 0 {
                    assert(s[k] == s.drop_first()[k - 1]);
                }
            }
        }
    }
}

proof fn lemma_trim_end_of_empty(s: Seq<char>)
    requires
        s.len() == 0,
    ensures
        trim_end_seq(s).len() == 0,
{
}

proof fn lemma_trim_end_nonempty(s: Seq<char>)
    requires
        s.len() > 0,
        !is_white_space(s[0]),
    ensures
        trim_end_seq(s).len() > 0,
    decreases s.len(),
{
    if is_white_space(s.last()) {
        assert(s.len() > 1);
        assert(s.drop_last()[0] == s[0]);
        lemma_trim_end_nonempty(s.drop_last());
    }
}

/// A string is blank when `trim` leaves nothing of it, that is when all of
/// its characters are white space.
pub proof fn lemma_blank_iff_all_white_space(s: Seq<char>)
    ensures
        (trim_seq(s).len() == 0) <==> all_white_space(s),
    decreases s.len(),
{
    lemma_trim_start_empty(s);
    let t = trim_start_seq(s);
    if t.len() == 0 {
        lemma_trim_end_of_empty(t);
    } else {
        lemma_trim_start_first(s);
        lemma_trim_end_nonempty(t);
    }
}

proof fn lemma_trim_start_first(s: Seq<char>)
    requires
        trim_start_seq(s).len() > 0,
    ensures
        !is_white_space(trim_start_seq(s)[0]),
    decreases s.len(),
{
    if s.len() > 0 && is_white_space(s[0]) {
        lemma_trim_start_first(s.drop_first());
    }
}

/// Whether `s` is empty or holds only white space (`s.trim().is_empty()`).
pub fn is_blank(s: &str) -> (b: bool)
    ensures
        b == (trim_seq(s@).len() == 0),
{
    proof {
        lemma_blank_iff_all_white_space(s@);
    }
    let mut all = true;
    for c in it: s.chars()
        invariant
            all == (forall|k: int| 0 <= k < it.index() ==> is_white_space(#[trigger] s@[k])),
            it.seq() == s@,
    {
        if !is_whitespace(c) {
            all = false;
        }
    }
    all
}

// ------------------------------------------------------------------
// Splitting
// ------------------------------------------------------------------

/// The pieces of `s` between the occurrences of `d`, empty pieces included
/// (`str::split` with a character pattern).
pub open spec fn split_seq(s: Seq<char>, d: char) -> Seq<Seq<char>>
    decreases s.len(),
{
    if s.len() == 0 {
        seq![Seq::<char>::empty()]
    } else {
        let rest = split_seq(s.drop_last(), d);
        if s.last() == d {
            rest.push(Seq::<char>::empty())
        } else {
            rest.update(rest.len() - 1, rest.last().push(s.last()))
        }
    }
}

proof fn lemma_split_seq_nonempty(s: Seq<char>, d: char)
    ensures
        split_seq(s, d).len() >= 1,
    decreases s.len(),
{
    if s.len() > 0 {
        lemma_split_seq_nonempty(s.drop_last(), d);
    }
}

/// The trimmed pieces that are not empty once trimmed, in order.
pub open spec fn nonblank_trimmed(pieces: Seq<Seq<char>>) -> Seq<Seq<char>>
    decreases pieces.len(),
{
    if pieces.len() == 0 {
        Seq::empty()
    } else {
        let rest = nonblank_trimmed(pieces.drop_last());
        let t = trim_seq(pieces.last());
        if t.len() > 0 {
            rest.push(t)
        } else {
            rest
        }
    }
}

/// The views of a vector of strings.
pub open spec fn strings_view(v: Seq<String>) -> Seq<Seq<char>> {
    v.map_values(|x: String| x@)
}

/// The statements of `code`: its pieces between semicolons, trimmed, the
/// blank ones left out.
pub open spec fn statements_of(code: Seq<char>) -> Seq<Seq<char>> {
    nonblank_trimmed(split_seq(code, ';'))
}

fn push_trimmed_if_nonblank(
    out: &mut Vec<String>,
    cur: &Vec<char>,
    Ghost(pieces): Ghost<Seq<Seq<char>>>,
)
    requires
        strings_view(old(out)@) == nonblank_trimmed(pieces),
    ensures
        strings_view(final(out)@) == nonblank_trimmed(pieces.push(cur@)),
{
    let (a, b) = trim_bounds(cur);
    assert(pieces.push(cur@).drop_last() =~= pieces);
    if a < b {
        let t = string_from_range(cur, a, b);
        out.push(t);
        assert(strings_view(final(out)@) =~= strings_view(old(out)@).push(t@));
    }
}

/// The statements of `code` (see `statements_of`).
pub fn split_statements(code: &str) -> (v: Vec<String>)
    ensures
        strings_view(v@) == statements_of(code@),
{
    let chars = chars_of(code);
    let n = chars.len();
    let mut out: Vec<String> = Vec::new();
    let mut cur: Vec<char> = Vec::new();
    let ghost mut pieces: Seq<Seq<char>> = Seq::empty();
    let mut i: usize = 0;
    assert(chars@.take(0) =~= Seq::<char>::empty());
    assert(strings_view(out@) =~= Seq::<Seq<char>>::empty());
    while i < n
        invariant
            i <= n == chars@.len(),
            chars@ == code@,
            split_seq(chars@.take(i as int), ';') == pieces.push(cur@),
            strings_view(out@) == nonblank_trimmed(pieces),
        decreases n - i,
    {
        let c = chars[i];
        let ghost before = chars@.take(i as int);
        assert(chars@.take(i + 1).drop_last() =~= before);
        assert(chars@.take(i + 1).last() == c);
        if c == ';' {
            push_trimmed_if_nonblank(&mut out, &cur, Ghost(pieces));
            proof {
                pieces = pieces.push(cur@);
            }
            cur = Vec::new();
            assert(split_seq(chars@.take(i + 1), ';') =~= pieces.push(cur@));
        } else {
            cur.push(c);
            assert(split_seq(chars@.take(i + 1), ';') =~= pieces.push(cur@));
        }
        i = i + 1;
    }
    assert(chars@.take(n as int) =~= chars@);
    push_trimmed_if_nonblank(&mut out, &cur, Ghost(pieces));
    out
}

// ------------------------------------------------------------------
// Searching
// ------------------------------------------------------------------

/// Whether `needle` occurs in `hay` as a run of consecutive characters.
pub open spec fn contains_seq(hay: Seq<char>, needle: Seq<char>) -> bool {
    exists|i: int|
        0 <= i && i + needle.len() <= hay.len() && #[trigger] hay.subrange(i, i + needle.len())
            == needle
}

fn matches_at(hay: &Vec<char>, needle: &Vec<char>, i: usize) -> (b: bool)
    requires
        i + needle@.len() <= hay@.len(),
    ensures
        b == (hay@.subrange(i as int, i + needle@.len()) == needle@),
{
    let m = needle.len();
    let hl = hay.len();
    let mut k: usize = 0;
    while k < m
        invariant
            m == needle@.len(),
            hl == hay@.len(),
            i + m <= hay@.len(),
            k <= m,
            forall|t: int| 0 <= t < k ==> hay@[i + t] == needle@[t],
        decreases m - k,
    {
        if hay[i + k] != needle[k] {
            assert(hay@.subrange(i as int, i + m)[k as int] != needle@[k as int]);
            return false;
        }
        k = k + 1;
    }
    assert(hay@.subrange(i as int, i + m) =~= needle@);
    true
}

/// Whether `needle` occurs in `hay` (`str::contains` with a string pattern).
pub fn contains(hay: &str, needle: &str) -> (b: bool)
    ensures
        b == contains_seq(hay@, needle@),
{
    let h = chars_of(hay);
    let nd = chars_of(needle);
    if nd.len() == 0 {
        assert(hay@.subrange(0int, 0int + needle@.len()) =~= needle@);
        return true;
    }
    if nd.len() > h.len() {
        return false;
    }
    let last = h.len() - nd.len();
    let mut i: usize = 0;
    while i <= last
        invariant
            last + nd@.len() == h@.len(),
            nd@.len() > 0,
            h@.len() <= usize::MAX,
            h@ == hay@,
            nd@ == needle@,
            forall|j: int| 0 <= j < i ==> #[trigger] h@.subrange(j, j + nd@.len()) != nd@,
        decreases last + 1 - i,
    {
        if matches_at(&h, &nd, i) {
            return true;
        }
        i = i + 1;
    }
    false
}

// ------------------------------------------------------------------
// Letter case
// ------------------------------------------------------------------

/// What std's `str::to_lowercase` gives for a string: the Unicode lower-case
/// mapping of each character, with the context rule for the final sigma.
pub uninterp spec fn lowercase(s: Seq<char>) -> Seq<char>;

/// Lower-cases `s` with std's `str::to_lowercase`; the result is the named
/// `lowercase` of the argument and depends on nothing else.
#[verifier::external_body]
pub fn to_lowercase(s: &str) -> (t: String)
    ensures
        t@ == lowercase(s@),
{
    s.to_lowercase()
}

// ------------------------------------------------------------------
// Decimal rendering
// ------------------------------------------------------------------

/// The character of the decimal digit `d`.
pub open spec fn digit_char(d: nat) -> char {
    (d + 48) as char
}

/// The decimal digits of `n`, most significant first, without leading zeros.
pub open spec fn decimal(n: nat) -> Seq<char>
    decreases n,
{
    if n < 10 {
        seq![digit_char(n)]
    } else {
        decimal(n / 10).push(digit_char(n % 10))
    }
}

/// The decimal rendering of a signed integer, as `Display` writes it.
pub open spec fn signed_decimal(n: int) -> Seq<char> {
    if n < 0 {
        seq!['-'] + decimal((-n) as nat)
    } else {
        decimal(n as nat)
    }
}

/// The character of a decimal digit.
pub fn digit(d: u8) -> (c: char)
    requires
        d < 10,
    ensures
        c == digit_char(d as nat),
{
    let b: u8 = d + 48;
    b as char
}

/// The decimal rendering of `n` (`n.to_string()`).
pub fn u128_to_decimal(n: u128) -> (s: String)
    ensures
        s@ == decimal(n as nat),
{
    let mut rev: Vec<char> = Vec::new();
    let mut rem = n;
    let ghost mut tail: Seq<char> = Seq::empty();
    while rem >= 10
        invariant
            decimal(n as nat) == decimal(rem as nat) + tail,
            rev@ == tail.reverse(),
        decreases rem,
    {
        let d = (rem % 10) as u8;
        let c = digit(d);
        proof {
            assert(decimal(rem as nat) == decimal((rem / 10) as nat).push(c));
            assert(decimal(rem as nat) + tail =~= decimal((rem / 10) as nat) + (seq![c] + tail));
            assert((seq![c] + tail).reverse() =~= tail.reverse().push(c));
            tail = seq![c] + tail;
        }
        rev.push(c);
        rem = rem / 10;
    }
    let c = digit(rem as u8);
    rev.push(c);
    proof {
        assert((seq![c] + tail).reverse() =~= tail.reverse().push(c));
        tail = seq![c] + tail;
        assert(decimal(n as nat) =~= tail);
    }
    let mut s = String::new();
    let mut k = rev.len();
    while k > 0
        invariant
            k <= rev@.len() == tail.len(),
            rev@ == tail.reverse(),
            s@ == tail.take(tail.len() - k),
        decreases k,
    {
        k = k - 1;
        push_char(&mut s, rev[k]);
        assert(s@ =~= tail.take(tail.len() - k));
    }
    assert(tail.take(tail.len() as int) =~= tail);
    s
}

/// The decimal rendering of a signed integer (`n.to_string()`).
pub fn i128_to_decimal(n: i128) -> (s: String)
    requires
        n > i128::MIN,
    ensures
        s@ == signed_decimal(n as int),
{
    if n < 0 {
        let m = (-n) as u128;
        let digits = u128_to_decimal(m);
        let mut s = String::new();
        push_char(&mut s, '-');
        append_str(&mut s, digits.as_str());
        s
    } else {
        u128_to_decimal(n as u128)
    }
}


// ------------------------------------------------------------------
// Laws of statements
// ------------------------------------------------------------------

proof fn lemma_split_pieces_lack_separator(s: Seq<char>, d: char)
    ensures
        forall|i: int| 0 <= i < split_seq(s, d).len() ==> !(#[trigger] split_seq(s, d)[i]).contains(d),
    decreases s.len(),
{
    if s.len() > 0 {
        lemma_split_pieces_lack_separator(s.drop_last(), d);
        lemma_split_seq_nonempty(s.drop_last(), d);
        let rest = split_seq(s.drop_last(), d);
        if s.last() != d {
            let last = rest.last().push(s.last());
            assert(!rest[rest.len() - 1].contains(d));
            assert forall|k: int| 0 <= k < last.len() implies last[k] != d by {
                if k < last.len() - 1 {
                    assert(last[k] == rest.last()[k]);
                }
            }
        }
    }
}

proof fn lemma_trim_start_keeps_absence(s: Seq<char>, d: char)
    requires
        !s.contains(d),
    ensures
        !trim_start_seq(s).contains(d),
    decreases s.len(),
{
    if s.len() > 0 && is_white_space(s[0]) {
        assert forall|k: int| 0 <= k < s.drop_first().len() implies s.drop_first()[k] != d by {
            assert(s.drop_first()[k] == s[k + 1]);
        }
        lemma_trim_start_keeps_absence(s.drop_first(), d);
    }
}

proof fn lemma_trim_end_prefix(s: Seq<char>)
    ensures
        trim_end_seq(s).len() <= s.len(),
        trim_end_seq(s) == s.take(trim_end_seq(s).len() as int),
        trim_end_seq(s).len() > 0 ==> !is_white_space(trim_end_seq(s).last()),
    decreases s.len(),
{
    if s.len() > 0 && is_white_space(s.last()) {
        lemma_trim_end_prefix(s.drop_last());
        let t = trim_end_seq(s.drop_last());
        assert(s.drop_last().take(t.len() as int) =~= s.take(t.len() as int));
    } else {
        assert(s.take(s.len() as int) =~= s);
    }
}

/// Trimming twice is trimming once.
pub proof fn lemma_trim_idempotent(s: Seq<char>)
    ensures
        trim_seq(trim_seq(s)) == trim_seq(s),
{
    let t = trim_start_seq(s);
    let u = trim_end_seq(t);
    lemma_trim_end_prefix(t);
    if u.len() > 0 {
        lemma_trim_start_first(s);
        assert(u[0] == t[0]);
        assert(trim_start_seq(u) == u);
        assert(trim_end_seq(u) == u);
    } else {
        assert(trim_start_seq(u) == u);
    }
}

proof fn lemma_trim_keeps_absence(s: Seq<char>, d: char)
    requires
        !s.contains(d),
    ensures
        !trim_seq(s).contains(d),
{
    lemma_trim_start_keeps_absence(s, d);
    let t = trim_start_seq(s);
    lemma_trim_end_prefix(t);
    let u = trim_end_seq(t);
    assert forall|k: int| 0 <= k < u.len() implies u[k] != d by {
        assert(u[k] == t[k]);
    }
}

proof fn lemma_nonblank_trimmed_props(pieces: Seq<Seq<char>>, d: char)
    requires
        forall|i: int| 0 <= i < pieces.len() ==> !(#[trigger] pieces[i]).contains(d),
    ensures
        forall|i: int|
            0 <= i < nonblank_trimmed(pieces).len() ==> {
                let st = #[trigger] nonblank_trimmed(pieces)[i];
                &&& st.len() > 0
                &&& trim_seq(st) == st
                &&& !st.contains(d)
            },
    decreases pieces.len(),
{
    if pieces.len() > 0 {
        lemma_nonblank_trimmed_props(pieces.drop_last(), d);
        let t = trim_seq(pieces.last());
        lemma_trim_idempotent(pieces.last());
        lemma_trim_keeps_absence(pieces.last(), d);
        let rest = nonblank_trimmed(pieces.drop_last());
        if t.len() > 0 {
            assert forall|i: int| 0 <= i < rest.len() implies #[trigger] rest.push(t)[i] == rest[i] by {}
        }
    }
}

/// Every statement of the editor's text is a single statement, trimmed and
/// not empty: it holds no semicolon, no white space at either end, and at
/// least one character.
pub proof fn lemma_statements_are_trimmed(code: Seq<char>)
    ensures
        forall|i: int|
            0 <= i < statements_of(code).len() ==> {
                let st = #[trigger] statements_of(code)[i];
                &&& st.len() > 0
                &&& trim_seq(st) == st
                &&& !st.contains(';')
            },
{
    lemma_split_pieces_lack_separator(code, ';');
    lemma_nonblank_trimmed_props(split_seq(code, ';'), ';');
}


proof fn lemma_split_without_separator(s: Seq<char>, d: char)
    requires
        !s.contains(d),
    ensures
        split_seq(s, d) == seq![s],
    decreases s.len(),
{
    if s.len() > 0 {
        assert(!s.drop_last().contains(d)) by {
            if s.drop_last().contains(d) {
                let k = choose|k: int| 0 <= k < s.drop_last().len() && s.drop_last()[k] == d;
                assert(s[k] == d);
            }
        }
        lemma_split_without_separator(s.drop_last(), d);
        assert(s[s.len() - 1] != d);
        let rest = split_seq(s.drop_last(), d);
        assert(rest.len() == 1 && rest.last() == s.drop_last());
        assert(s.drop_last().push(s.last()) =~= s);
        assert(rest.update(0, s.drop_last().push(s.last())) =~= seq![s]);
        assert(split_seq(s, d) == rest.update(rest.len() - 1, rest.last().push(s.last())));
    } else {
        assert(s =~= Seq::<char>::empty());
    }
}

proof fn lemma_split_at_separator(a: Seq<char>, d: char, b: Seq<char>)
    ensures
        split_seq(a + seq![d] + b, d) == split_seq(a, d) + split_seq(b, d),
    decreases b.len(),
{
    let s = a + seq![d] + b;
    if b.len() == 0 {
        assert(s.drop_last() =~= a);
        assert(split_seq(a, d).push(Seq::<char>::empty()) =~= split_seq(a, d) + split_seq(b, d));
    } else {
        let b1 = b.drop_last();
        assert(s.drop_last() =~= a + seq![d] + b1);
        assert(s.last() == b.last());
        lemma_split_at_separator(a, d, b1);
        lemma_split_seq_nonempty(b1, d);
        let pa = split_seq(a, d);
        let pb = split_seq(b1, d);
        if b.last() == d {
            assert((pa + pb).push(Seq::<char>::empty()) =~= pa + pb.push(Seq::<char>::empty()));
        } else {
            let r = pa + pb;
            assert(r.last() == pb.last());
            assert(r.update(r.len() - 1, r.last().push(s.last())) =~= pa + pb.update(
                pb.len() - 1,
                pb.last().push(b.last()),
            ));
        }
    }
}

proof fn lemma_nonblank_trimmed_concat(p: Seq<Seq<char>>, q: Seq<Seq<char>>)
    ensures
        nonblank_trimmed(p + q) == nonblank_trimmed(p) + nonblank_trimmed(q),
    decreases q.len(),
{
    if q.len() == 0 {
        assert(p + q =~= p);
        assert(nonblank_trimmed(p) + nonblank_trimmed(q) =~= nonblank_trimmed(p));
    } else {
        assert((p + q).drop_last() =~= p + q.drop_last());
        assert((p + q).last() == q.last());
        lemma_nonblank_trimmed_concat(p, q.drop_last());
        let t = trim_seq(q.last());
        if t.len() > 0 {
            assert((nonblank_trimmed(p) + nonblank_trimmed(q.drop_last())).push(t) =~= nonblank_trimmed(p)
                + nonblank_trimmed(q.drop_last()).push(t));
        }
    }
}

/// Code without a semicolon is one statement: the code trimmed, line breaks
/// and all, unless it is blank, when it holds none.
pub proof fn lemma_statements_without_semicolon(code: Seq<char>)
    requires
        !code.contains(';'),
    ensures
        statements_of(code) == (if trim_seq(code).len() == 0 {
            Seq::<Seq<char>>::empty()
        } else {
            seq![trim_seq(code)]
        }),
{
    lemma_split_without_separator(code, ';');
    let pieces = seq![code];
    assert(pieces.drop_last() =~= Seq::<Seq<char>>::empty());
    assert(nonblank_trimmed(Seq::<Seq<char>>::empty()) == Seq::<Seq<char>>::empty());
    assert(pieces.last() == code);
    assert(statements_of(code) == nonblank_trimmed(pieces));
    if trim_seq(code).len() > 0 {
        assert(Seq::<Seq<char>>::empty().push(trim_seq(code)) =~= seq![trim_seq(code)]);
    }
}

/// Statements are cut at semicolons and nowhere else: the statements of code
/// made of a piece without a semicolon, a semicolon and the rest are those of
/// the piece followed by those of the rest.
pub proof fn lemma_statements_cut_at_semicolon(a: Seq<char>, b: Seq<char>)
    requires
        !a.contains(';'),
    ensures
        statements_of(a + seq![';'] + b) == statements_of(a) + statements_of(b),
{
    lemma_split_at_separator(a, ';', b);
    lemma_nonblank_trimmed_concat(split_seq(a, ';'), split_seq(b, ';'));
}


proof fn lemma_trim_start_is_suffix(s: Seq<char>) -> (i: int)
    ensures
        0 <= i <= s.len(),
        trim_start_seq(s) == s.skip(i),
        forall|k: int| 0 <= k < i ==> is_white_space(#[trigger] s[k]),
        i < s.len() ==> !is_white_space(s[i]),
    decreases s.len(),
{
    if s.len() > 0 && is_white_space(s[0]) {
        let j = lemma_trim_start_is_suffix(s.drop_first());
        assert(s.drop_first().skip(j) =~= s.skip(j + 1));
        assert forall|k: int| 0 <= k < j + 1 implies is_white_space(#[trigger] s[k]) by {
            if k > 0 {
                assert(s[k] == s.drop_first()[k - 1]);
            }
        }
        if j + 1 < s.len() {
            assert(s[j + 1] == s.drop_first()[j]);
        }
        j + 1
    } else {
        assert(s.skip(0) =~= s);
        0
    }
}

proof fn lemma_trim_end_is_prefix(s: Seq<char>) -> (j: int)
    ensures
        0 <= j <= s.len(),
        trim_end_seq(s) == s.take(j),
        forall|k: int| j <= k < s.len() ==> is_white_space(#[trigger] s[k]),
        j > 0 ==> !is_white_space(s[j - 1]),
    decreases s.len(),
{
    if s.len() > 0 && is_white_space(s.last()) {
        let j = lemma_trim_end_is_prefix(s.drop_last());
        assert(s.drop_last().take(j) =~= s.take(j));
        assert forall|k: int| j <= k < s.len() implies is_white_space(#[trigger] s[k]) by {
            if k < s.len() - 1 {
                assert(s[k] == s.drop_last()[k]);
            }
        }
        if j > 0 {
            assert(s[j - 1] == s.drop_last()[j - 1]);
        }
        j
    } else {
        assert(s.take(s.len() as int) =~= s);
        s.len() as int
    }
}

/// Trimming removes white space at both ends and nothing else: what is left
/// is a contiguous piece of the text (line breaks inside it kept), all that
/// was cut off before and after it is white space, and it neither starts
/// nor ends with white space.
pub proof fn lemma_trim_cuts_only_the_ends(s: Seq<char>)
    ensures
        exists|i: int, j: int|
            {
                &&& 0 <= i <= j <= s.len()
                &&& trim_seq(s) == s.subrange(i, j)
                &&& forall|k: int| 0 <= k < i ==> is_white_space(#[trigger] s[k])
                &&& forall|k: int| j <= k < s.len() ==> is_white_space(#[trigger] s[k])
                &&& i < j ==> !is_white_space(s[i]) && !is_white_space(s[j - 1])
            },
{
    let i = lemma_trim_start_is_suffix(s);
    let t = s.skip(i);
    let m = lemma_trim_end_is_prefix(t);
    let j = i + m;
    assert(t.take(m) =~= s.subrange(i, j));
    assert forall|k: int| j <= k < s.len() implies is_white_space(#[trigger] s[k]) by {
        assert(s[k] == t[k - i]);
    }
    if i < j {
        assert(s[i] == t[0]);
        assert(s[j - 1] == t[m - 1]);
    }
    assert(0 <= i <= j <= s.len() && trim_seq(s) == s.subrange(i, j));
}


/// The number that the decimal digits `s` (most significant first) write.
pub open spec fn digits_value(s: Seq<char>) -> int
    decreases s.len(),
{
    if s.len() == 0 {
        0
    } else {
        digits_value(s.drop_last()) * 10 + (s.last() as int - '0' as int)
    }
}

/// The decimal rendering of `n` reads back as `n`: it is made of the digits
/// `0` to `9` only, and it starts with `0` only for zero itself.
pub proof fn lemma_decimal_reads_back(n: nat)
    ensures
        digits_value(decimal(n)) == n,
        decimal(n).len() >= 1,
        forall|k: int| 0 <= k < decimal(n).len() ==> '0' <= #[trigger] decimal(n)[k] <= '9',
        decimal(n)[0] == '0' ==> n == 0,
    decreases n,
{
    if n >= 10 {
        lemma_decimal_reads_back(n / 10);
        let d = decimal(n / 10);
        assert(decimal(n).drop_last() =~= d);
        assert forall|k: int| 0 <= k < decimal(n).len() implies '0' <= #[trigger] decimal(n)[k] <= '9' by {
            if k < d.len() {
                assert(decimal(n)[k] == d[k]);
            }
        }
        assert(decimal(n)[0] == d[0]);
        let r = n % 10;
        assert(digit_char(r) as int == r + 48);
        assert(decimal(n).last() == digit_char(r));
        assert((n / 10) * 10 + r == n) by (nonlinear_arith)
            requires
                r == n % 10,
        ;
        assert('0' as int == 48);
        assert(digits_value(decimal(n)) == digits_value(d) * 10 + (decimal(n).last() as int - '0' as int));
    } else {
        assert(decimal(n).drop_last() =~= Seq::<char>::empty());
        assert(digit_char(n) as int == n + 48);
        assert(decimal(n).last() == digit_char(n));
        assert('0' as int == 48);
        assert(digits_value(Seq::<char>::empty()) == 0);
        assert(digits_value(decimal(n)) == digits_value(decimal(n).drop_last()) * 10 + (
        decimal(n).last() as int - '0' as int));
    }
}

/// The rendering of a signed integer is a minus sign followed by the digits
/// of its magnitude for a negative number, and just the digits otherwise.
pub proof fn lemma_signed_decimal_reads_back(n: int)
    ensures
        n < 0 ==> signed_decimal(n)[0] == '-' && digits_value(signed_decimal(n).drop_first()) == -n,
        n >= 0 ==> digits_value(signed_decimal(n)) == n && signed_decimal(n)[0] != '-',
{
    if n < 0 {
        lemma_decimal_reads_back((-n) as nat);
        assert(signed_decimal(n).drop_first() =~= decimal((-n) as nat));
    } else {
        lemma_decimal_reads_back(n as nat);
    }
}

} // verus!
