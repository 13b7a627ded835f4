//! Character-level text helpers over `str` and `String`, with their
//! behaviour stated over `Seq<char>`.
use vstd::prelude::*;
use vstd::utf8::{decode_utf8, valid_utf8};

verus! {

broadcast use vstd::string::group_string_axioms;

/// The Unicode `White_Space` property, which `char::is_whitespace` tests.
pub open spec fn is_whitespace_spec(c: char) -> bool {
    let u = c as u32;
    (0x9 <= u && u <= 0xd) || u == 0x20 || u == 0x85 || u == 0xa0 || u == 0x1680 || (0x2000 <= u
        && u <= 0x200a) || u == 0x2028 || u == 0x2029 || u == 0x202f || u == 0x205f || u == 0x3000
}

#[verifier::when_used_as_spec(is_whitespace_spec)]
pub fn is_whitespace(c: char) -> (r: bool)
    ensures
        r == is_whitespace_spec(c),
{
    let u = c as u32;
    (0x9 <= u && u <= 0xd) || u == 0x20 || u == 0x85 || u == 0xa0 || u == 0x1680 || (0x2000 <= u
        && u <= 0x200a) || u == 0x2028 || u == 0x2029 || u == 0x202f || u == 0x205f || u == 0x3000
}

/// `s` without leading white space.
pub open spec fn trim_start(s: Seq<char>) -> Seq<char>
    decreases s.len(),
{
    if s.len() > 0 && is_whitespace_spec(s[0]) {
        trim_start(s.drop_first())
    } else {
        s
    }
}

/// `s` without trailing white space.
pub open spec fn trim_end(s: Seq<char>) -> Seq<char>
    decreases s.len(),
{
    if s.len() > 0 && is_whitespace_spec(s.last()) {
        trim_end(s.drop_last())
    } else {
        s
    }
}

/// `s` without leading or trailing white space, as `str::trim` gives it.
pub open spec fn trim(s: Seq<char>) -> Seq<char> {
    trim_end(trim_start(s))
}

/// Text that starts with a character other than white space keeps
/// something after trimming.
pub proof fn lemma_trim_nonblank_start(s: Seq<char>)
    requires
        s.len() > 0,
        !is_whitespace_spec(s[0]),
    ensures
        trim(s).len() > 0,
    decreases s.len(),
{
    assert(trim_start(s) == s);
    lemma_trim_end_nonblank_start(s);
}

proof fn lemma_trim_end_nonblank_start(s: Seq<char>)
    requires
        s.len() > 0,
        !is_whitespace_spec(s[0]),
    ensures
        trim_end(s).len() > 0,
    decreases s.len(),
{
    if s.len() > 1 && is_whitespace_spec(s.last()) {
        let t = s.drop_last();
        assert(t[0] == s[0]);
        lemma_trim_end_nonblank_start(t);
    }
}

proof fn lemma_trim_start_skip(s: Seq<char>, a: int)
    requires
        0 <= a <= s.len(),
        forall|i: int| 0 <= i < a ==> is_whitespace_spec(#[trigger] s[i]),
        a == s.len() || !is_whitespace_spec(s[a]),
    ensures
        trim_start(s) == s.skip(a),
    decreases a,
{
    if a == 0 {
        assert(s.skip(0) =~= s);
    } else {
        let t = s.drop_first();
        assert forall|i: int| 0 <= i < a - 1 implies is_whitespace_spec(#[trigger] t[i]) by {
            assert(t[i] == s[i + 1]);
        }
        if a - 1 < t.len() {
            assert(t[a - 1] == s[a]);
        }
        lemma_trim_start_skip(t, a - 1);
        assert(t.skip(a - 1) =~= s.skip(a));
    }
}

proof fn lemma_trim_end_take(s: Seq<char>, b: int)
    requires
        0 <= b <= s.len(),
        forall|i: int| b <= i < s.len() ==> is_whitespace_spec(#[trigger] s[i]),
        b == 0 || !is_whitespace_spec(s[b - 1]),
    ensures
        trim_end(s) == s.take(b),
    decreases s.len() - b,
{
    if b == s.len() {
        assert(s.take(b) =~= s);
    } else {
        let t = s.drop_last();
        assert forall|i: int| b <= i < t.len() implies is_whitespace_spec(#[trigger] t[i]) by {
            assert(t[i] == s[i]);
        }
        if b > 0 {
            assert(t[b - 1] == s[b - 1]);
        }
        lemma_trim_end_take(t, b);
        assert(t.take(b) =~= s.take(b));
    }
}

/// The characters of `s`.
pub fn chars_of(s: &str) -> (r: Vec<char>)
    ensures
        r@ == s@,
{
    let mut r: Vec<char> = Vec::new();
    for c in it: s.chars()
        invariant
            it.seq() == s@,
            r@ == it.seq().take(it.index() as int),
    {
        r.push(c);
        assert(it.seq().take(it.index() + 1) =~= r@);
    }
    assert(r@ =~= s@);
    r
}

/// Appends one character, as `String::push` does.
#[verifier::external_body]
pub(crate) fn push_char(s: &mut String, c: char)
    ensures
        final(s)@ == old(s)@.push(c),
{
    s.push(c);
}

/// Compares two string slices character by character, as `==` on `str`
/// does.
pub(crate) fn str_eq(a: &str, b: &str) -> (r: bool)
    ensures
        r == (a@ == b@),
{
    let ca = chars_of(a);
    let cb = chars_of(b);
    chars_eq(&ca, &cb)
}

/// `str::trim`: the slice without leading or trailing white space.
pub fn trim_str(s: &str) -> (r: &str)
    ensures
        r@ == trim(s@),
{
    let cs = chars_of(s);
    let n = cs.len();
    let mut a: usize = 0;
    while a < n && is_whitespace(cs[a])
        invariant
            a <= n,
            n == cs@.len(),
            cs@ == s@,
            forall|i: int| 0 <= i < a ==> is_whitespace_spec(#[trigger] cs@[i]),
        decreases n - a,
    {
        a = a + 1;
    }
    let mut b: usize = n;
    while b > a && is_whitespace(cs[b - 1])
        invariant
            a <= b <= n,
            n == cs@.len(),
            cs@ == s@,
            forall|i: int| b <= i < n ==> is_whitespace_spec(#[trigger] cs@[i]),
        decreases b - a,
    {
        b = b - 1;
    }
    proof {
        let t = s@.skip(a as int);
        lemma_trim_start_skip(s@, a as int);
        assert forall|i: int| b - a <= i < t.len() implies is_whitespace_spec(#[trigger] t[i]) by {
            assert(t[i] == s@[i + a]);
        }
        if b > a {
            assert(t[b - a - 1] == s@[b - 1]);
        }
        lemma_trim_end_take(t, b - a);
        assert(t.take(b - a) =~= s@.subrange(a as int, b as int));
    }
    s.substring_char(a, b)
}


/// Whether `c` is an ASCII decimal digit.
pub open spec fn is_ascii_digit(c: char) -> bool {
    '0' <= c && c <= '9'
}

/// The value of the ASCII digit `c`.
pub open spec fn digit_value(c: char) -> int {
    c as int - '0' as int
}

/// The ASCII digit for `d < 10`.
pub open spec fn digit_char(d: int) -> char {
    if d == 0 { '0' } else if d == 1 { '1' } else if d == 2 { '2' } else if d == 3 { '3' }
    else if d == 4 { '4' } else if d == 5 { '5' } else if d == 6 { '6' } else if d == 7 { '7' }
    else if d == 8 { '8' } else { '9' }
}

/// The decimal digits of `n`, as `{}` formats an unsigned integer.
pub open spec fn decimal(n: nat) -> Seq<char>
    decreases n,
{
    if n < 10 {
        seq![digit_char(n as int)]
    } else {
        decimal(n / 10).push(digit_char((n % 10) as int))
    }
}

/// Appends the decimal digits of `n`.
pub fn push_decimal(s: &mut String, n: usize)
    ensures
        final(s)@ == old(s)@ + decimal(n as nat),
    decreases n,
{
    if n >= 10 {
        push_decimal(s, n / 10);
    }
    let d = n % 10;
    let c = if d == 0 { '0' } else if d == 1 { '1' } else if d == 2 { '2' } else if d == 3 { '3' }
    else if d == 4 { '4' } else if d == 5 { '5' } else if d == 6 { '6' } else if d == 7 { '7' }
    else if d == 8 { '8' } else { '9' };
    push_char(s, c);
    proof {
        if n < 10 {
            assert(old(s)@ + decimal(n as nat) =~= old(s)@.push(c));
        } else {
            assert(decimal(n as nat) == decimal((n / 10) as nat).push(digit_char((n % 10) as int)));
            assert(old(s)@ + decimal((n / 10) as nat) + seq![c] =~= old(s)@ + decimal(n as nat));
        }
    }
}

/// `c` with ASCII upper-case letters mapped to lower case.
pub open spec fn ascii_lower_char(c: char) -> char {
    if 'A' <= c && c <= 'Z' {
        ((c as u32) + 32) as char
    } else {
        c
    }
}

/// `s` with ASCII upper-case letters mapped to lower case, as
/// `str::to_ascii_lowercase` gives it.
pub open spec fn ascii_lower(s: Seq<char>) -> Seq<char> {
    s.map_values(|c: char| ascii_lower_char(c))
}

/// The characters of `s` with ASCII letters lowered.
pub fn ascii_lowercase_chars(s: &str) -> (r: Vec<char>)
    ensures
        r@ == ascii_lower(s@),
{
    let cs = chars_of(s);
    let mut r: Vec<char> = Vec::new();
    let n = cs.len();
    for i in 0..n
        invariant
            n == cs@.len(),
            cs@ == s@,
            r@ == ascii_lower(s@).take(i as int),
    {
        let c = cs[i];
        let l = if 'A' <= c && c <= 'Z' {
            let u = (c as u8) + 32;
            u as char
        } else {
            c
        };
        r.push(l);
        assert(ascii_lower(s@).take(i + 1) =~= r@);
    }
    assert(ascii_lower(s@).take(n as int) =~= ascii_lower(s@));
    r
}

/// Whether two character vectors are equal.
pub fn chars_eq(a: &Vec<char>, b: &Vec<char>) -> (r: bool)
    ensures
        r == (a@ == b@),
{
    if a.len() != b.len() {
        return false;
    }
    let n = a.len();
    for i in 0..n
        invariant
            n == a@.len(),
            n == b@.len(),
            forall|j: int| 0 <= j < i ==> a@[j] == b@[j],
    {
        if a[i] != b[i] {
            return false;
        }
    }
    assert(a@ =~= b@);
    true
}

/// Whether `s` begins with `p`.
pub open spec fn has_prefix(s: Seq<char>, p: Seq<char>) -> bool {
    p.len() <= s.len() && s.take(p.len() as int) == p
}

/// `str::strip_prefix`: the rest of `s` after `p`, if `s` begins with `p`.
pub fn strip_prefix<'a>(s: &'a str, p: &str) -> (r: Option<&'a str>)
    ensures
        match r {
            Some(t) => has_prefix(s@, p@) && t@ == s@.skip(p@.len() as int),
            None => !has_prefix(s@, p@),
        },
{
    let cs = chars_of(s);
    let ps = chars_of(p);
    if ps.len() > cs.len() {
        return None;
    }
    let n = ps.len();
    for i in 0..n
        invariant
            n == ps@.len(),
            n <= cs@.len(),
            cs@ == s@,
            ps@ == p@,
            forall|j: int| 0 <= j < i ==> cs@[j] == ps@[j],
    {
        if cs[i] != ps[i] {
            assert(s@.take(n as int)[i as int] != p@[i as int]);
            return None;
        }
    }
    assert(s@.take(n as int) =~= p@);
    Some(s.substring_char(n, cs.len()))
}

/// Whether `needle` occurs in `hay`.
pub open spec fn contains_seq(hay: Seq<char>, needle: Seq<char>) -> bool {
    exists|i: int| 0 <= i && i + needle.len() <= hay.len() && #[trigger] hay.subrange(i, i + needle.len()) == needle
}

/// `str::contains` for a string pattern.
pub fn str_contains(hay: &str, needle: &str) -> (r: bool)
    ensures
        r == contains_seq(hay@, needle@),
{
    let h = chars_of(hay);
    let n = chars_of(needle);
    if n.len() > h.len() {
        return false;
    }
    let last = h.len() - n.len();
    let mut i: usize = 0;
    while i <= last
        invariant
            h@ == hay@,
            n@ == needle@,
            last == h@.len() - n@.len(),
            n@.len() <= h@.len(),
            h@.len() <= usize::MAX,
            i <= last,
            forall|k: int| 0 <= k < i ==> #[trigger] hay@.subrange(k, k + needle@.len()) != needle@,
        decreases last + 1 - i,
    {
        let mut j: usize = 0;
        let mut same = true;
        while j < n.len()
            invariant
                h@ == hay@,
                n@ == needle@,
                i <= last,
                last == h@.len() - n@.len(),
                n@.len() <= h@.len(),
                h@.len() <= usize::MAX,
                j <= n@.len(),
                same == (forall|q: int| 0 <= q < j ==> h@[i + q] == n@[q]),
            decreases n@.len() - j,
        {
            if h[i + j] != n[j] {
                same = false;
            }
            j = j + 1;
        }
        if same {
            assert(hay@.subrange(i as int, i + needle@.len()) =~= needle@);
            return true;
        }
        assert(hay@.subrange(i as int, i + needle@.len()) != needle@) by {
            let q = choose|q: int| 0 <= q < n@.len() && h@[i + q] != n@[q];
            assert(hay@.subrange(i as int, i + needle@.len())[q] == h@[i + q]);
        }
        if i == last {
            return false;
        }
        i = i + 1;
    }
    false
}

/// `str::to_owned`.
pub fn owned(s: &str) -> (r: String)
    ensures
        r@ == s@,
{
    s.to_owned()
}

/// `r` is an error whose message is `m`.
pub open spec fn err_text<T>(r: Result<T, String>, m: Seq<char>) -> bool {
    r matches Err(e) && e@ == m
}


/// A line without its trailing carriage return, if it has one.
pub open spec fn strip_cr(line: Seq<char>) -> Seq<char> {
    if line.len() > 0 && line.last() == '\r' {
        line.drop_last()
    } else {
        line
    }
}

/// The lines that `s` ends (each without its `\n` or `\r\n`), and the
/// characters after the last `\n`.
pub open spec fn line_scan(s: Seq<char>) -> (Seq<Seq<char>>, Seq<char>)
    decreases s.len(),
{
    if s.len() == 0 {
        (seq![], seq![])
    } else {
        let (done, current) = line_scan(s.drop_last());
        if s.last() == '\n' {
            (done.push(strip_cr(current)), seq![])
        } else {
            (done, current.push(s.last()))
        }
    }
}

/// The lines of `s`, as `str::lines` gives them: split at `\n`, a trailing
/// `\r` removed from each, and no empty last line after a final `\n`.
pub open spec fn lines(s: Seq<char>) -> Seq<Seq<char>> {
    let (done, current) = line_scan(s);
    if current.len() > 0 {
        done.push(current)
    } else {
        done
    }
}

/// The lines of `x` followed by `y`, where `x` ends a line, are the lines
/// of `x` and then those of `y`.
pub proof fn lemma_line_scan_split(x: Seq<char>, y: Seq<char>)
    requires
        x.len() == 0 || x.last() == '\n',
    ensures
        line_scan(x + y) == (line_scan(x).0 + line_scan(y).0, line_scan(y).1),
    decreases y.len(),
{
    if y.len() == 0 {
        assert(x + y =~= x);
        if x.len() > 0 {
            assert(line_scan(x).1 == Seq::<char>::empty());
        }
        assert(line_scan(x).0 + line_scan(y).0 =~= line_scan(x).0);
    } else {
        let z = x + y;
        assert(z.drop_last() =~= x + y.drop_last());
        assert(z.last() == y.last());
        lemma_line_scan_split(x, y.drop_last());
        let (d, c) = line_scan(y.drop_last());
        if y.last() == '\n' {
            assert((line_scan(x).0 + d).push(strip_cr(c)) =~= line_scan(x).0 + d.push(strip_cr(c)));
        }
    }
}

proof fn lemma_line_scan_no_break(s: Seq<char>)
    requires
        forall|i: int| 0 <= i < s.len() ==> #[trigger] s[i] != '\n',
    ensures
        line_scan(s) == (Seq::<Seq<char>>::empty(), s),
    decreases s.len(),
{
    if s.len() > 0 {
        assert(s.last() == s[s.len() - 1]);
        lemma_line_scan_no_break(s.drop_last());
        assert(s.drop_last().push(s.last()) =~= s);
    }
}

/// Text without `\n`, followed by `\n`, is one line.
pub proof fn lemma_line_scan_one_line(s: Seq<char>)
    requires
        forall|i: int| 0 <= i < s.len() ==> #[trigger] s[i] != '\n',
    ensures
        line_scan(s.push('\n')) == (seq![strip_cr(s)], Seq::<char>::empty()),
{
    lemma_line_scan_no_break(s);
    assert(s.push('\n').drop_last() =~= s);
    assert(Seq::<Seq<char>>::empty().push(strip_cr(s)) =~= seq![strip_cr(s)]);
}

/// A blank before text with no white space at its ends trims away.
pub proof fn lemma_trim_after_blank(t: Seq<char>)
    requires
        t.len() > 0,
        !is_whitespace_spec(t[0]),
        !is_whitespace_spec(t.last()),
    ensures
        trim(seq![' '] + t) == t,
{
    let s = seq![' '] + t;
    assert(s[1] == t[0]);
    lemma_trim_start_skip(s, 1);
    assert(s.skip(1) =~= t);
    lemma_trim_end_take(t, t.len() as int);
    assert(t.take(t.len() as int) =~= t);
}

fn finish_line(current: &Vec<char>) -> (r: String)
    ensures
        r@ == strip_cr(current@),
{
    let mut n = current.len();
    if n > 0 && current[n - 1] == '\r' {
        n = n - 1;
    }
    let mut r = String::new();
    for i in 0..n
        invariant
            n <= current@.len(),
            n == strip_cr(current@).len(),
            r@ == strip_cr(current@).take(i as int),
    {
        push_char(&mut r, current[i]);
        assert(r@ =~= strip_cr(current@).take(i + 1));
    }
    assert(r@ =~= strip_cr(current@));
    r
}

/// `str::lines`, as owned strings.
pub fn lines_of(s: &str) -> (r: Vec<String>)
    ensures
        r@.map_values(|l: String| l@) == lines(s@),
{
    let cs = chars_of(s);
    let mut done: Vec<String> = Vec::new();
    let mut current: Vec<char> = Vec::new();
    let n = cs.len();
    for i in 0..n
        invariant
            n == cs@.len(),
            cs@ == s@,
            (done@.map_values(|l: String| l@), current@) == line_scan(s@.take(i as int)),
    {
        proof {
            assert(s@.take(i + 1).drop_last() =~= s@.take(i as int));
        }
        let c = cs[i];
        if c == '\n' {
            let line = finish_line(&current);
            done.push(line);
            current = Vec::new();
        } else {
            current.push(c);
        }
        proof {
            assert(done@.map_values(|l: String| l@) =~= line_scan(s@.take(i + 1)).0);
            assert(current@ =~= line_scan(s@.take(i + 1)).1);
        }
    }
    proof {
        assert(s@.take(n as int) =~= s@);
    }
    if current.len() > 0 {
        let mut last = String::new();
        for i in 0..current.len()
            invariant
                last@ == current@.take(i as int),
        {
            push_char(&mut last, current[i]);
            assert(last@ =~= current@.take(i + 1));
        }
        assert(last@ =~= current@);
        done.push(last);
        assert(done@.map_values(|l: String| l@) =~= lines(s@));
    }
    done
}

/// `std::str::from_utf8`: the text that `bytes` encode, when they are
/// valid UTF-8.  The contract claims that the call succeeds exactly on
/// valid UTF-8 and then gives the characters the bytes encode.
#[verifier::external_body]
pub(crate) fn utf8_text(bytes: &[u8]) -> (r: Option<&str>)
    ensures
        match r {
            Some(s) => valid_utf8(bytes@) && s@ == decode_utf8(bytes@),
            None => !valid_utf8(bytes@),
        },
{
    std::str::from_utf8(bytes).ok()
}

} // verus!
