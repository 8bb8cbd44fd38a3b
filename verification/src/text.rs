//! Character-level text handling: the model of strings as `Seq<char>`,
//! and executable helpers that are proved against it.
use vstd::prelude::*;

verus! {

/// `String::push` appends one character to the string.
pub assume_specification[ String::push ](s: &mut String, ch: char)
    ensures
        final(s)@ == old(s)@.push(ch),
;

/// Unicode `White_Space`, the property behind `char::is_whitespace`, `str::trim`
/// and `str::split_whitespace`.
pub open spec fn is_ws(c: char) -> bool {
    let u = c as u32;
    ||| 0x09 <= u <= 0x0D
    ||| u == 0x20
    ||| u == 0x85
    ||| u == 0xA0
    ||| u == 0x1680
    ||| 0x2000 <= u <= 0x200A
    ||| u == 0x2028
    ||| u == 0x2029
    ||| u == 0x202F
    ||| u == 0x205F
    ||| u == 0x3000
}

/// The text with its leading whitespace removed.
pub open spec fn trim_start(s: Seq<char>) -> Seq<char>
    decreases s.len(),
{
    if s.len() > 0 && is_ws(s[0]) {
        trim_start(s.drop_first())
    } else {
        s
    }
}

/// The text with its trailing whitespace removed.
pub open spec fn trim_end(s: Seq<char>) -> Seq<char>
    decreases s.len(),
{
    if s.len() > 0 && is_ws(s.last()) {
        trim_end(s.drop_last())
    } else {
        s
    }
}

/// The text with whitespace removed at both ends (`str::trim`).
pub open spec fn trim(s: Seq<char>) -> Seq<char> {
    trim_end(trim_start(s))
}

pub open spec fn starts_with(s: Seq<char>, p: Seq<char>) -> bool {
    p.len() <= s.len() && s.take(p.len() as int) == p
}

pub open spec fn ends_with(s: Seq<char>, p: Seq<char>) -> bool {
    p.len() <= s.len() && s.skip(s.len() - p.len()) == p
}

/// `str::strip_prefix`.
pub open spec fn strip_prefix(s: Seq<char>, p: Seq<char>) -> Option<Seq<char>> {
    if starts_with(s, p) {
        Some(s.skip(p.len() as int))
    } else {
        None
    }
}

/// `str::strip_suffix`.
pub open spec fn strip_suffix(s: Seq<char>, p: Seq<char>) -> Option<Seq<char>> {
    if ends_with(s, p) {
        Some(s.take(s.len() - p.len()))
    } else {
        None
    }
}

proof fn lemma_trim_start_skip(s: Seq<char>, k: int)
    requires
        0 <= k <= s.len(),
        forall|i: int| 0 <= i < k ==> is_ws(#[trigger] s[i]),
        k == s.len() || !is_ws(s[k]),
    ensures
        trim_start(s) == s.skip(k),
    decreases k,
{
    if k == 0 {
        assert(s.skip(0) =~= s);
    } else {
        assert(is_ws(s[0]));
        let t = s.drop_first();
        assert forall|i: int| 0 <= i < k - 1 implies is_ws(#[trigger] t[i]) by {
            assert(t[i] == s[i + 1]);
        }
        if k < s.len() {
            assert(t[k - 1] == s[k]);
        }
        lemma_trim_start_skip(t, k - 1);
        assert(t.skip(k - 1) =~= s.skip(k));
    }
}

proof fn lemma_trim_end_take(s: Seq<char>, j: int)
    requires
        0 <= j <= s.len(),
        forall|i: int| j <= i < s.len() ==> is_ws(#[trigger] s[i]),
        j == 0 || !is_ws(s[j - 1]),
    ensures
        trim_end(s) == s.take(j),
    decreases s.len() - j,
{
    if j == s.len() {
        assert(s.take(j) =~= s);
    } else {
        assert(is_ws(s[s.len() - 1]));
        let t = s.drop_last();
        assert forall|i: int| j <= i < t.len() implies is_ws(#[trigger] t[i]) by {
            assert(t[i] == s[i]);
        }
        if j > 0 {
            assert(t[j - 1] == s[j - 1]);
        }
        lemma_trim_end_take(t, j);
        assert(t.take(j) =~= s.take(j));
    }
}

/// Membership of a character in Unicode `White_Space`.
pub fn is_whitespace(c: char) -> (r: bool)
    ensures
        r == is_ws(c),
{
    let u = c as u32;
    (0x09 <= u && u <= 0x0D) || u == 0x20 || u == 0x85 || u == 0xA0 || u == 0x1680 || (0x2000
        <= u && u <= 0x200A) || u == 0x2028 || u == 0x2029 || u == 0x202F || u == 0x205F || u
        == 0x3000
}

/// The characters of a string slice.
pub fn chars_of(s: &str) -> (v: Vec<char>)
    ensures
        v@ == s@,
{
    let mut v: Vec<char> = Vec::new();
    for c in it: s.chars()
        invariant
            v@ == it.seq().take(it.index() as int),
            it.seq() == s@,
    {
        v.push(c);
    }
    v
}

/// The string made of the characters `v[lo..hi]`.
pub fn string_of(v: &Vec<char>, lo: usize, hi: usize) -> (s: String)
    requires
        lo <= hi <= v@.len(),
    ensures
        s@ == v@.subrange(lo as int, hi as int),
{
    let mut s = String::new();
    let mut i: usize = lo;
    while i < hi
        invariant
            lo <= i <= hi <= v@.len(),
            s@ == v@.subrange(lo as int, i as int),
        decreases hi - i,
    {
        s.push(v[i]);
        i = i + 1;
        assert(s@ =~= v@.subrange(lo as int, i as int));
    }
    s
}

/// Whether `v[lo..hi]` spells the string `p`.
pub fn span_eq(v: &Vec<char>, lo: usize, hi: usize, p: &str) -> (r: bool)
    requires
        lo <= hi <= v@.len(),
    ensures
        r == (v@.subrange(lo as int, hi as int) == p@),
{
    let pc = chars_of(p);
    if hi - lo != pc.len() {
        return false;
    }
    let mut i: usize = 0;
    while i < pc.len()
        invariant
            hi - lo == pc@.len(),
            lo <= hi <= v@.len(),
            pc@ == p@,
            i <= pc@.len(),
            forall|k: int| 0 <= k < i ==> v@[lo + k] == pc@[k],
        decreases pc@.len() - i,
    {
        if v[lo + i] != pc[i] {
            assert(v@.subrange(lo as int, hi as int)[i as int] != p@[i as int]);
            return false;
        }
        i = i + 1;
    }
    assert(v@.subrange(lo as int, hi as int) =~= p@);
    true
}

/// Whether `v[lo..hi]` begins with the string `p`.
pub fn span_starts_with(v: &Vec<char>, lo: usize, hi: usize, p: &str) -> (r: bool)
    requires
        lo <= hi <= v@.len(),
    ensures
        r == starts_with(v@.subrange(lo as int, hi as int), p@),
{
    let pc = chars_of(p);
    if pc.len() > hi - lo {
        return false;
    }
    let r = span_eq(v, lo, lo + pc.len(), p);
    assert(v@.subrange(lo as int, hi as int).take(pc@.len() as int) =~= v@.subrange(
        lo as int,
        lo + pc@.len(),
    ));
    r
}

/// Whether `v[lo..hi]` ends with the string `p`.
pub fn span_ends_with(v: &Vec<char>, lo: usize, hi: usize, p: &str) -> (r: bool)
    requires
        lo <= hi <= v@.len(),
    ensures
        r == ends_with(v@.subrange(lo as int, hi as int), p@),
{
    let pc = chars_of(p);
    if pc.len() > hi - lo {
        return false;
    }
    let r = span_eq(v, hi - pc.len(), hi, p);
    assert(v@.subrange(lo as int, hi as int).skip((hi - lo) - pc@.len()) =~= v@.subrange(
        hi - pc@.len(),
        hi as int,
    ));
    r
}

/// The bounds of `v[lo..hi]` with whitespace trimmed at both ends.
pub fn trim_span(v: &Vec<char>, lo: usize, hi: usize) -> (r: (usize, usize))
    requires
        lo <= hi <= v@.len(),
    ensures
        lo <= r.0 <= r.1 <= hi,
        v@.subrange(r.0 as int, r.1 as int) == trim(v@.subrange(lo as int, hi as int)),
{
    let ghost s = v@.subrange(lo as int, hi as int);
    let mut a: usize = lo;
    while a < hi && is_whitespace(v[a])
        invariant
            lo <= a <= hi <= v@.len(),
            s == v@.subrange(lo as int, hi as int),
            forall|i: int| 0 <= i < a - lo ==> is_ws(#[trigger] s[i]),
        decreases hi - a,
    {
        assert(s[a - lo] == v@[a as int]);
        a = a + 1;
    }
    proof {
        if a < hi {
            assert(s[a - lo] == v@[a as int]);
        }
        lemma_trim_start_skip(s, a - lo);
    }
    let ghost t = s.skip(a - lo);
    assert(t =~= v@.subrange(a as int, hi as int));
    let mut b: usize = hi;
    while b > a && is_whitespace(v[b - 1])
        invariant
            lo <= a <= b <= hi <= v@.len(),
            t == v@.subrange(a as int, hi as int),
            forall|i: int| b - a <= i < t.len() ==> is_ws(#[trigger] t[i]),
        decreases b - a,
    {
        assert(t[b - 1 - a] == v@[b - 1]);
        b = b - 1;
    }
    proof {
        if b > a {
            assert(t[b - 1 - a] == v@[b - 1]);
        }
        lemma_trim_end_take(t, b - a);
        assert(t.take(b - a) =~= v@.subrange(a as int, b as int));
    }
    (a, b)
}


/// The texts that the spans stand for, in order.
pub open spec fn spans_text(v: Seq<char>, spans: Seq<(usize, usize)>) -> Seq<Seq<char>> {
    spans.map_values(|p: (usize, usize)| v.subrange(p.0 as int, p.1 as int))
}

/// Spans that lie inside `[lo, hi]`, each starting no later than it ends.
pub open spec fn spans_within(spans: Seq<(usize, usize)>, lo: int, hi: int) -> bool {
    forall|k: int| 0 <= k < spans.len() ==> lo <= (#[trigger] spans[k]).0 <= spans[k].1 <= hi
}

/// The words of `s` (maximal runs of non-whitespace), continuing a word `cur` already begun.
pub open spec fn words_from(s: Seq<char>, cur: Seq<char>) -> Seq<Seq<char>>
    decreases s.len(),
{
    if s.len() == 0 {
        if cur.len() > 0 {
            seq![cur]
        } else {
            seq![]
        }
    } else if is_ws(s[0]) {
        (if cur.len() > 0 {
            seq![cur]
        } else {
            seq![]
        }) + words_from(s.drop_first(), seq![])
    } else {
        words_from(s.drop_first(), cur.push(s[0]))
    }
}

/// `str::split_whitespace`.
pub open spec fn split_ws(s: Seq<char>) -> Seq<Seq<char>> {
    words_from(s, seq![])
}

/// The pieces of `s` between occurrences of `d`, continuing a piece `cur` already begun.
pub open spec fn pieces_from(s: Seq<char>, d: char, cur: Seq<char>) -> Seq<Seq<char>>
    decreases s.len(),
{
    if s.len() == 0 {
        seq![cur]
    } else if s[0] == d {
        seq![cur] + pieces_from(s.drop_first(), d, seq![])
    } else {
        pieces_from(s.drop_first(), d, cur.push(s[0]))
    }
}

/// `str::split` on one character: empty pieces are kept, and there is always one piece
/// more than there are separators.
pub open spec fn split_on(s: Seq<char>, d: char) -> Seq<Seq<char>> {
    pieces_from(s, d, seq![])
}

/// A line without the carriage return that ends it, if any.
pub open spec fn strip_cr(s: Seq<char>) -> Seq<char> {
    if s.len() > 0 && s.last() == '\r' {
        s.drop_last()
    } else {
        s
    }
}

/// The lines of `s` continuing a line `cur` already begun.
pub open spec fn lines_from(s: Seq<char>, cur: Seq<char>) -> Seq<Seq<char>>
    decreases s.len(),
{
    if s.len() == 0 {
        if cur.len() > 0 {
            seq![cur]
        } else {
            seq![]
        }
    } else if s[0] == '\n' {
        seq![strip_cr(cur)] + lines_from(s.drop_first(), seq![])
    } else {
        lines_from(s.drop_first(), cur.push(s[0]))
    }
}

/// `str::lines`: lines end at `\n` or `\r\n`, and a final line ending adds no empty line.
pub open spec fn lines(s: Seq<char>) -> Seq<Seq<char>> {
    lines_from(s, seq![])
}

/// The spans of the words of `v[lo..hi]`.
pub fn split_ws_spans(v: &Vec<char>, lo: usize, hi: usize) -> (r: Vec<(usize, usize)>)
    requires
        lo <= hi <= v@.len(),
    ensures
        spans_within(r@, lo as int, hi as int),
        spans_text(v@, r@) == split_ws(v@.subrange(lo as int, hi as int)),
{
    let mut out: Vec<(usize, usize)> = Vec::new();
    let mut cs: usize = lo;
    let mut i: usize = lo;
    assert(v@.subrange(lo as int, lo as int) =~= Seq::<char>::empty());
    assert(spans_text(v@, out@) =~= Seq::<Seq<char>>::empty());
    while i < hi
        invariant
            lo <= cs <= i <= hi <= v@.len(),
            spans_within(out@, lo as int, hi as int),
            spans_text(v@, out@) + words_from(
                v@.subrange(i as int, hi as int),
                v@.subrange(cs as int, i as int),
            ) == split_ws(v@.subrange(lo as int, hi as int)),
        decreases hi - i,
    {
        let ghost rest = v@.subrange(i as int, hi as int);
        let ghost cur = v@.subrange(cs as int, i as int);
        let ghost prev = spans_text(v@, out@);
        assert(rest[0] == v@[i as int]);
        assert(rest.drop_first() =~= v@.subrange(i + 1, hi as int));
        if is_whitespace(v[i]) {
            if cs < i {
                out.push((cs, i));
                assert(spans_text(v@, out@) =~= prev + seq![cur]);
            } else {
                assert(spans_text(v@, out@) =~= prev);
            }
            i = i + 1;
            cs = i;
            assert(v@.subrange(cs as int, i as int) =~= Seq::<char>::empty());
        } else {
            assert(cur.push(v@[i as int]) =~= v@.subrange(cs as int, i + 1));
            i = i + 1;
        }
    }
    let ghost cur = v@.subrange(cs as int, i as int);
    let ghost prev = spans_text(v@, out@);
    assert(v@.subrange(i as int, hi as int) =~= Seq::<char>::empty());
    if cs < i {
        out.push((cs, i));
        assert(spans_text(v@, out@) =~= prev + seq![cur]);
    } else {
        assert(spans_text(v@, out@) =~= prev + Seq::<Seq<char>>::empty());
    }
    out
}

/// The spans of the pieces of `v[lo..hi]` between occurrences of `d`.
pub fn split_on_spans(v: &Vec<char>, lo: usize, hi: usize, d: char) -> (r: Vec<(usize, usize)>)
    requires
        lo <= hi <= v@.len(),
    ensures
        spans_within(r@, lo as int, hi as int),
        spans_text(v@, r@) == split_on(v@.subrange(lo as int, hi as int), d),
{
    let mut out: Vec<(usize, usize)> = Vec::new();
    let mut cs: usize = lo;
    let mut i: usize = lo;
    assert(v@.subrange(lo as int, lo as int) =~= Seq::<char>::empty());
    assert(spans_text(v@, out@) =~= Seq::<Seq<char>>::empty());
    while i < hi
        invariant
            lo <= cs <= i <= hi <= v@.len(),
            spans_within(out@, lo as int, hi as int),
            spans_text(v@, out@) + pieces_from(
                v@.subrange(i as int, hi as int),
                d,
                v@.subrange(cs as int, i as int),
            ) == split_on(v@.subrange(lo as int, hi as int), d),
        decreases hi - i,
    {
        let ghost rest = v@.subrange(i as int, hi as int);
        let ghost cur = v@.subrange(cs as int, i as int);
        let ghost prev = spans_text(v@, out@);
        assert(rest[0] == v@[i as int]);
        assert(rest.drop_first() =~= v@.subrange(i + 1, hi as int));
        if v[i] == d {
            out.push((cs, i));
            assert(spans_text(v@, out@) =~= prev + seq![cur]);
            i = i + 1;
            cs = i;
            assert(v@.subrange(cs as int, i as int) =~= Seq::<char>::empty());
        } else {
            assert(cur.push(v@[i as int]) =~= v@.subrange(cs as int, i + 1));
            i = i + 1;
        }
    }
    let ghost cur = v@.subrange(cs as int, i as int);
    let ghost prev = spans_text(v@, out@);
    assert(v@.subrange(i as int, hi as int) =~= Seq::<char>::empty());
    out.push((cs, i));
    assert(spans_text(v@, out@) =~= prev + seq![cur]);
    out
}

/// The spans of the lines of `v[lo..hi]`.
pub fn lines_spans(v: &Vec<char>, lo: usize, hi: usize) -> (r: Vec<(usize, usize)>)
    requires
        lo <= hi <= v@.len(),
    ensures
        spans_within(r@, lo as int, hi as int),
        spans_text(v@, r@) == lines(v@.subrange(lo as int, hi as int)),
{
    let mut out: Vec<(usize, usize)> = Vec::new();
    let mut cs: usize = lo;
    let mut i: usize = lo;
    assert(v@.subrange(lo as int, lo as int) =~= Seq::<char>::empty());
    assert(spans_text(v@, out@) =~= Seq::<Seq<char>>::empty());
    while i < hi
        invariant
            lo <= cs <= i <= hi <= v@.len(),
            spans_within(out@, lo as int, hi as int),
            spans_text(v@, out@) + lines_from(
                v@.subrange(i as int, hi as int),
                v@.subrange(cs as int, i as int),
            ) == lines(v@.subrange(lo as int, hi as int)),
        decreases hi - i,
    {
        let ghost rest = v@.subrange(i as int, hi as int);
        let ghost cur = v@.subrange(cs as int, i as int);
        let ghost prev = spans_text(v@, out@);
        assert(rest[0] == v@[i as int]);
        assert(rest.drop_first() =~= v@.subrange(i + 1, hi as int));
        if v[i] == '\n' {
            if cs < i && v[i - 1] == '\r' {
                out.push((cs, i - 1));
                assert(cur.drop_last() =~= v@.subrange(cs as int, i - 1));
            } else {
                out.push((cs, i));
            }
            assert(spans_text(v@, out@) =~= prev + seq![strip_cr(cur)]);
            i = i + 1;
            cs = i;
            assert(v@.subrange(cs as int, i as int) =~= Seq::<char>::empty());
        } else {
            assert(cur.push(v@[i as int]) =~= v@.subrange(cs as int, i + 1));
            i = i + 1;
        }
    }
    let ghost cur = v@.subrange(cs as int, i as int);
    let ghost prev = spans_text(v@, out@);
    assert(v@.subrange(i as int, hi as int) =~= Seq::<char>::empty());
    if cs < i {
        out.push((cs, i));
        assert(spans_text(v@, out@) =~= prev + seq![cur]);
    } else {
        assert(spans_text(v@, out@) =~= prev + Seq::<Seq<char>>::empty());
    }
    out
}


pub open spec fn is_digit(c: char) -> bool {
    0x30 <= (c as u32) <= 0x39
}

pub open spec fn digit_val(c: char) -> nat {
    ((c as u32) - 0x30) as nat
}

pub open spec fn all_digits(s: Seq<char>) -> bool {
    forall|i: int| 0 <= i < s.len() ==> is_digit(#[trigger] s[i])
}

/// The value of a string of decimal digits.
pub open spec fn digits_value(s: Seq<char>) -> nat
    decreases s.len(),
{
    if s.len() == 0 {
        0
    } else {
        digits_value(s.drop_last()) * 10 + digit_val(s.last())
    }
}

/// What the digits of an unsigned number are: the text without one leading `+`.
pub open spec fn unsigned_body(s: Seq<char>) -> Seq<char> {
    if s.len() > 0 && s[0] == '+' {
        s.drop_first()
    } else {
        s
    }
}

/// `str::parse` into an unsigned integer type whose largest value is `max`: an optional
/// `+`, then at least one decimal digit and nothing else, with a value of at most `max`.
pub open spec fn parse_unsigned(s: Seq<char>, max: nat) -> Option<nat> {
    let d = unsigned_body(s);
    if d.len() > 0 && all_digits(d) && digits_value(d) <= max {
        Some(digits_value(d))
    } else {
        None
    }
}

proof fn lemma_digits_value_prefix(s: Seq<char>, k: int)
    requires
        0 <= k <= s.len(),
    ensures
        digits_value(s.take(k)) <= digits_value(s),
    decreases s.len(),
{
    if k < s.len() {
        assert(s.drop_last().take(k) =~= s.take(k));
        lemma_digits_value_prefix(s.drop_last(), k);
    } else {
        assert(s.take(k) =~= s);
    }
}

/// The value of `v[lo..hi]` parsed as an unsigned number of at most `max`.
pub fn parse_unsigned_span(v: &Vec<char>, lo: usize, hi: usize, max: u32) -> (r: Option<u32>)
    requires
        lo <= hi <= v@.len(),
        max <= 65535,
    ensures
        match parse_unsigned(v@.subrange(lo as int, hi as int), max as nat) {
            Some(n) => r == Some(n as u32),
            None => r is None,
        },
{
    let ghost s = v@.subrange(lo as int, hi as int);
    let mut start = lo;
    if lo < hi && v[lo] == '+' {
        start = lo + 1;
    }
    let ghost d = unsigned_body(s);
    assert(d =~= v@.subrange(start as int, hi as int));
    if start == hi {
        return None;
    }
    let mut acc: u32 = 0;
    let mut i: usize = start;
    assert(d.take(0) =~= Seq::<char>::empty());
    while i < hi
        invariant
            lo <= start <= i <= hi <= v@.len(),
            d == v@.subrange(start as int, hi as int),
            d == unsigned_body(v@.subrange(lo as int, hi as int)),
            all_digits(d.take(i - start)),
            acc as nat == digits_value(d.take(i - start)),
            acc <= max,
            max <= 65535,
        decreases hi - i,
    {
        let c = v[i];
        assert(d[i - start] == c);
        let u = c as u32;
        if !(48 <= u && u <= 57) {
            assert(!is_digit(d[i - start]));
            return None;
        }
        let dv = u - 48;
        assert(d.take(i - start + 1).drop_last() =~= d.take(i - start));
        assert(d.take(i - start + 1).last() == c);
        let next = acc * 10 + dv;
        assert(all_digits(d.take(i - start + 1))) by {
            assert forall|k: int| 0 <= k < i - start + 1 implies is_digit(
                #[trigger] d.take(i - start + 1)[k],
            ) by {
                if k < i - start {
                    assert(d.take(i - start + 1)[k] == d.take(i - start)[k]);
                }
            }
        }
        i = i + 1;
        if next > max {
            proof {
                lemma_digits_value_prefix(d, i - start);
            }
            return None;
        }
        acc = next;
    }
    assert(d.take(i - start) =~= d);
    Some(acc)
}

pub open spec fn digit_char(n: nat) -> char {
    (n + 0x30) as char
}

/// The decimal digits of `n`, without leading zeros (`Display` for integers).
pub open spec fn dec(n: nat) -> Seq<char>
    decreases n,
{
    if n < 10 {
        seq![digit_char(n)]
    } else {
        dec(n / 10).push(digit_char(n % 10))
    }
}

/// `s` padded on the left with zeros to at least `w` characters (`{:0w}`).
pub open spec fn pad_zeros(s: Seq<char>, w: nat) -> Seq<char> {
    if s.len() < w {
        Seq::new((w - s.len()) as nat, |i: int| '0') + s
    } else {
        s
    }
}

fn digit_of(n: u64) -> (c: char)
    requires
        n < 10,
    ensures
        c == digit_char(n as nat),
{
    let b: u8 = 48 + n as u8;
    b as char
}

/// Appends the decimal digits of `n`.
pub fn push_dec(out: &mut String, n: u64)
    ensures
        final(out)@ == old(out)@ + dec(n as nat),
    decreases n,
{
    if n < 10 {
        out.push(digit_of(n));
    } else {
        push_dec(out, n / 10);
        out.push(digit_of(n % 10));
    }
}

/// The number of decimal digits of `n`.
pub fn dec_len(n: u64) -> (r: u64)
    ensures
        r == dec(n as nat).len(),
        r <= n + 1,
    decreases n,
{
    if n < 10 {
        1
    } else {
        let k = dec_len(n / 10);
        k + 1
    }
}

/// Appends the decimal digits of `n`, padded with zeros to `w` characters.
pub fn push_padded(out: &mut String, n: u64, w: u64)
    ensures
        final(out)@ == old(out)@ + pad_zeros(dec(n as nat), w as nat),
{
    let k = dec_len(n);
    let ghost start = out@;
    let mut i: u64 = k;
    while i < w
        invariant
            k <= i,
            i == k || i <= w,
            k == dec(n as nat).len(),
            out@ == start + Seq::new((i - k) as nat, |j: int| '0'),
        decreases w - i,
    {
        out.push('0');
        i = i + 1;
        assert(out@ =~= start + Seq::new((i - k) as nat, |j: int| '0'));
    }
    let ghost zs = out@;
    push_dec(out, n);
    assert(out@ =~= start + pad_zeros(dec(n as nat), w as nat)) by {
        if k < w {
            assert(i == w);
        } else {
            assert(i == k);
            assert(zs =~= start);
        }
    }
}


/// What `str::to_lowercase` gives for a text: Unicode lowercase mapping, which the
/// standard library computes from its case tables, independently of any locale.
pub uninterp spec fn lowercase(s: Seq<char>) -> Seq<char>;

/// `str::to_lowercase`. Its result is named by `lowercase`, a function of the text alone;
/// nothing more is stated of it.
#[verifier::external_body]
pub(crate) fn to_lowercase(s: &str) -> (r: String)
    ensures
        r@ == lowercase(s@),
{
    s.to_lowercase()
}

/// `char::to_ascii_lowercase`.
pub open spec fn ascii_lower_char(c: char) -> char {
    if 0x41 <= (c as u32) <= 0x5A {
        ((c as u32) + 32) as char
    } else {
        c
    }
}

/// `str::to_ascii_lowercase`.
pub open spec fn ascii_lower(s: Seq<char>) -> Seq<char> {
    s.map_values(|c: char| ascii_lower_char(c))
}

pub fn to_ascii_lower_char(c: char) -> (r: char)
    ensures
        r == ascii_lower_char(c),
{
    let u = c as u32;
    if 0x41 <= u && u <= 0x5A {
        let b: u8 = (u + 32) as u8;
        b as char
    } else {
        c
    }
}

/// `v[lo..hi]` in ASCII lowercase.
pub fn ascii_lower_span(v: &Vec<char>, lo: usize, hi: usize) -> (r: Vec<char>)
    requires
        lo <= hi <= v@.len(),
    ensures
        r@ == ascii_lower(v@.subrange(lo as int, hi as int)),
{
    let mut out: Vec<char> = Vec::new();
    let mut i: usize = lo;
    while i < hi
        invariant
            lo <= i <= hi <= v@.len(),
            out@ == ascii_lower(v@.subrange(lo as int, i as int)),
        decreases hi - i,
    {
        out.push(to_ascii_lower_char(v[i]));
        i = i + 1;
        assert(out@ =~= ascii_lower(v@.subrange(lo as int, i as int)));
    }
    out
}

/// `str::contains` with a text pattern.
pub open spec fn contains_seq(h: Seq<char>, n: Seq<char>) -> bool {
    exists|i: int| 0 <= i && i + n.len() <= h.len() && #[trigger] h.subrange(i, i + n.len()) == n
}

/// Whether the characters `v` contain the string `n`.
pub fn contains_str(v: &Vec<char>, n: &str) -> (r: bool)
    ensures
        r == contains_seq(v@, n@),
{
    let nc = chars_of(n);
    if nc.len() > v.len() {
        return false;
    }
    let nl = nc.len();
    let vl = v.len();
    let last = vl - nl;
    let mut i: usize = 0;
    loop
        invariant
            i <= last,
            last + nl == vl,
            vl == v@.len(),
            nl == nc@.len(),
            nc@ == n@,
            forall|j: int| 0 <= j < i ==> #[trigger] v@.subrange(j, j + n@.len()) != n@,
        decreases last - i,
    {
        if span_eq(v, i, i + nl, n) {
            return true;
        }
        if i == last {
            return false;
        }
        i = i + 1;
    }
}

/// `str::replace`: every non-overlapping occurrence of `p`, from the left, replaced by `r`.
pub open spec fn replace_all(s: Seq<char>, p: Seq<char>, r: Seq<char>) -> Seq<char>
    decreases s.len(),
{
    if s.len() == 0 {
        seq![]
    } else if p.len() > 0 && starts_with(s, p) {
        r + replace_all(s.skip(p.len() as int), p, r)
    } else {
        seq![s[0]] + replace_all(s.drop_first(), p, r)
    }
}

/// `v` with every occurrence of `p` replaced by `r`.
pub fn replace_chars(v: &Vec<char>, p: &str, r: &str) -> (out: Vec<char>)
    requires
        p@.len() > 0,
    ensures
        out@ == replace_all(v@, p@, r@),
{
    let pc = chars_of(p);
    let rc = chars_of(r);
    let mut out: Vec<char> = Vec::new();
    let mut i: usize = 0;
    assert(v@.skip(0) =~= v@);
    while i < v.len()
        invariant
            i <= v@.len(),
            pc@ == p@,
            rc@ == r@,
            p@.len() > 0,
            out@ + replace_all(v@.skip(i as int), p@, r@) == replace_all(v@, p@, r@),
        decreases v@.len() - i,
    {
        let ghost rest = v@.skip(i as int);
        let ghost before = out@;
        if span_starts_with(v, i, v.len(), p) {
            assert(v@.subrange(i as int, v@.len() as int) =~= rest);
            let mut k: usize = 0;
            while k < rc.len()
                invariant
                    k <= rc@.len(),
                    out@ == before + rc@.take(k as int),
                decreases rc@.len() - k,
            {
                out.push(rc[k]);
                k = k + 1;
                assert(out@ =~= before + rc@.take(k as int));
            }
            assert(rc@.take(k as int) =~= r@);
            assert(rest.skip(p@.len() as int) =~= v@.skip(i + pc@.len()));
            i = i + pc.len();
            assert(out@ + replace_all(v@.skip(i as int), p@, r@) =~= before + replace_all(rest, p@, r@));
        } else {
            assert(v@.subrange(i as int, v@.len() as int) =~= rest);
            out.push(v[i]);
            assert(rest.drop_first() =~= v@.skip(i + 1));
            i = i + 1;
            assert(out@ + replace_all(v@.skip(i as int), p@, r@) =~= before + replace_all(rest, p@, r@));
        }
    }
    assert(v@.skip(i as int) =~= Seq::<char>::empty());
    assert(out@ + Seq::<char>::empty() =~= out@);
    out
}


/// Splitting always yields at least one piece.
pub proof fn lemma_split_on_nonempty(s: Seq<char>, d: char)
    ensures
        split_on(s, d).len() >= 1,
{
    lemma_pieces_from_nonempty(s, d, seq![]);
}

proof fn lemma_pieces_from_nonempty(s: Seq<char>, d: char, cur: Seq<char>)
    ensures
        pieces_from(s, d, cur).len() >= 1,
    decreases s.len(),
{
    if s.len() > 0 {
        if s[0] == d {
            lemma_pieces_from_nonempty(s.drop_first(), d, seq![]);
        } else {
            lemma_pieces_from_nonempty(s.drop_first(), d, cur.push(s[0]));
        }
    }
}


/// `char::is_ascii_alphanumeric`.
pub open spec fn is_ascii_alnum(c: char) -> bool {
    let u = c as u32;
    (0x30 <= u <= 0x39) || (0x41 <= u <= 0x5A) || (0x61 <= u <= 0x7A)
}

pub fn is_ascii_alphanumeric(c: char) -> (r: bool)
    ensures
        r == is_ascii_alnum(c),
{
    let u = c as u32;
    (0x30 <= u && u <= 0x39) || (0x41 <= u && u <= 0x5A) || (0x61 <= u && u <= 0x7A)
}

/// `str::join`: the parts with `sep` between each two.
pub open spec fn join(parts: Seq<Seq<char>>, sep: Seq<char>) -> Seq<char>
    decreases parts.len(),
{
    if parts.len() == 0 {
        seq![]
    } else if parts.len() == 1 {
        parts[0]
    } else {
        join(parts.drop_last(), sep) + sep + parts.last()
    }
}

/// Appends the text of a string slice.
pub fn push_str(out: &mut String, s: &str)
    ensures
        final(out)@ == old(out)@ + s@,
{
    out.append(s);
}

} // verus!
