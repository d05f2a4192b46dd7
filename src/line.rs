//! The shapes of the header lines of an exported patch, and matchers that
//! recognise them and pick out their captured parts.
use vstd::prelude::*;

verus! {

pub open spec fn is_digit(c: char) -> bool {
    '0' <= c && c <= '9'
}

pub open spec fn is_hex(c: char) -> bool {
    is_digit(c) || ('a' <= c && c <= 'f')
}

pub open spec fn is_upper(c: char) -> bool {
    'A' <= c && c <= 'Z'
}

pub open spec fn is_lower(c: char) -> bool {
    'a' <= c && c <= 'z'
}

pub open spec fn is_space(c: char) -> bool {
    c == ' ' || c == '\t' || c == '\n' || c == '\r' || c == '\x0B' || c == '\x0C'
}

pub open spec fn all_digits(s: Seq<char>) -> bool {
    forall|i: int| 0 <= i < s.len() ==> is_digit(#[trigger] s[i])
}

pub open spec fn all_hex(s: Seq<char>) -> bool {
    forall|i: int| 0 <= i < s.len() ==> is_hex(#[trigger] s[i])
}

pub open spec fn all_slashes(s: Seq<char>) -> bool {
    forall|i: int| 0 <= i < s.len() ==> #[trigger] s[i] == '/'
}

/// One or more decimal digits.
pub open spec fn is_number(s: Seq<char>) -> bool {
    s.len() >= 1 && all_digits(s)
}

/// Exactly four decimal digits.
pub open spec fn is_four_digits(s: Seq<char>) -> bool {
    s.len() == 4 && all_digits(s)
}

/// A capitalised three-letter word, such as a weekday or a month: `Mon`, `Jan`.
pub open spec fn is_word3(s: Seq<char>) -> bool {
    s.len() == 3 && is_upper(s[0]) && is_lower(s[1]) && is_lower(s[2])
}

/// A time of day written `hh:mm:ss`.
pub open spec fn is_time(s: Seq<char>) -> bool {
    &&& s.len() == 8
    &&& is_digit(s[0]) && is_digit(s[1]) && s[2] == ':'
    &&& is_digit(s[3]) && is_digit(s[4]) && s[5] == ':'
    &&& is_digit(s[6]) && is_digit(s[7])
}

/// The export timestamp of the first line: `<month> <day> <hh:mm:ss> <year>`.
pub open spec fn is_from_date(s: Seq<char>) -> bool {
    let n = s.len() as int;
    &&& n >= 19
    &&& is_word3(s.subrange(0, 3))
    &&& s[3] == ' '
    &&& is_number(s.subrange(4, n - 14))
    &&& s[n - 14] == ' '
    &&& is_time(s.subrange(n - 13, n - 5))
    &&& s[n - 5] == ' '
    &&& is_four_digits(s.subrange(n - 4, n))
}

/// The value of the `Date:` header: `<day> <month> <year> <hh:mm:ss> <+|-><hhmm>`.
pub open spec fn is_date_value(s: Seq<char>) -> bool {
    let n = s.len() as int;
    &&& n >= 25
    &&& is_number(s.subrange(0, n - 24))
    &&& s[n - 24] == ' '
    &&& is_word3(s.subrange(n - 23, n - 20))
    &&& s[n - 20] == ' '
    &&& is_four_digits(s.subrange(n - 19, n - 15))
    &&& s[n - 15] == ' '
    &&& is_time(s.subrange(n - 14, n - 6))
    &&& s[n - 6] == ' '
    &&& (s[n - 5] == '+' || s[n - 5] == '-')
    &&& is_four_digits(s.subrange(n - 4, n))
}

/// Digits, then slashes, then digits, each part possibly empty (`1/3`, ``, `12`).
pub open spec fn is_counter_body(s: Seq<char>) -> bool {
    exists|i: int, j: int|
        0 <= i <= j <= s.len() && all_digits(#[trigger] s.subrange(0, i)) && all_slashes(
            #[trigger] s.subrange(i, j),
        ) && all_digits(s.subrange(j, s.len() as int))
}

/// The series counter inside `[PATCH ...]`: an optional blank, then a counter body.
pub open spec fn is_counter(s: Seq<char>) -> bool {
    is_counter_body(s) || (s.len() > 0 && is_space(s[0]) && is_counter_body(
        s.subrange(1, s.len() as int),
    ))
}

/// `From <40 hex digits> <weekday> <from-date>`, captured as (hash, from-date).
pub open spec fn hash_line(l: Seq<char>) -> Option<(Seq<char>, Seq<char>)> {
    if l.len() >= 50 && l.subrange(0, 5) == "From "@ && all_hex(l.subrange(5, 45)) && l[45] == ' '
        && is_word3(l.subrange(46, 49)) && l[49] == ' ' && is_from_date(
        l.subrange(50, l.len() as int),
    ) {
        Some((l.subrange(5, 45), l.subrange(50, l.len() as int)))
    } else {
        None
    }
}

/// `From: <text>` with non-empty text, captured as the text.
pub open spec fn author_line(l: Seq<char>) -> Option<Seq<char>> {
    if l.len() > 6 && l.subrange(0, 6) == "From: "@ {
        Some(l.subrange(6, l.len() as int))
    } else {
        None
    }
}

/// `Date: <weekday>, <date value>`, captured as the date value.
pub open spec fn date_line(l: Seq<char>) -> Option<Seq<char>> {
    if l.len() >= 11 && l.subrange(0, 6) == "Date: "@ && is_word3(l.subrange(6, 9)) && l[9] == ','
        && l[10] == ' ' && is_date_value(l.subrange(11, l.len() as int)) {
        Some(l.subrange(11, l.len() as int))
    } else {
        None
    }
}

/// `l` is a subject line whose bracket closes at `k`: `Subject: [PATCH<counter>] <text>`.
pub open spec fn subject_at(l: Seq<char>, k: int) -> bool {
    &&& 15 <= k
    &&& k + 2 < l.len()
    &&& l.subrange(0, 15) == "Subject: [PATCH"@
    &&& l[k] == ']'
    &&& l[k + 1] == ' '
    &&& is_counter(l.subrange(15, k))
}

/// A subject line, captured as the text after the bracket.
pub open spec fn subject_line(l: Seq<char>) -> Option<Seq<char>> {
    if exists|k: int| subject_at(l, k) {
        Some(l.subrange((choose|k: int| subject_at(l, k)) + 2, l.len() as int))
    } else {
        None
    }
}

/// The line that ends the commit message.
pub open spec fn is_delimiter(l: Seq<char>) -> bool {
    l == "---"@
}

/// A series counter holds no closing bracket.
pub proof fn lemma_counter_has_no_bracket(s: Seq<char>, i: int)
    requires
        is_counter(s),
        0 <= i < s.len(),
    ensures
        s[i] != ']',
{
    let t = if is_counter_body(s) {
        s
    } else {
        s.subrange(1, s.len() as int)
    };
    let o: int = if is_counter_body(s) {
        0
    } else {
        1
    };
    if i >= o {
        let (x, y) = choose|x: int, y: int|
            0 <= x <= y <= t.len() && all_digits(#[trigger] t.subrange(0, x)) && all_slashes(
                #[trigger] t.subrange(x, y),
            ) && all_digits(t.subrange(y, t.len() as int));
        let m = i - o;
        assert(t[m] == s[i]);
        if m < x {
            assert(t.subrange(0, x)[m] == t[m]);
        } else if m < y {
            assert(t.subrange(x, y)[m - x] == t[m]);
        } else {
            assert(t.subrange(y, t.len() as int)[m - y] == t[m]);
        }
    }
}

/// A subject line has at most one closing bracket that fits its shape.
pub proof fn lemma_subject_at_unique(l: Seq<char>, k1: int, k2: int)
    requires
        subject_at(l, k1),
        subject_at(l, k2),
    ensures
        k1 == k2,
{
    if k1 < k2 {
        lemma_counter_has_no_bracket(l.subrange(15, k2), k1 - 15);
    } else if k2 < k1 {
        lemma_counter_has_no_bracket(l.subrange(15, k1), k2 - 15);
    }
}

/// The characters of `s`, one per element.
pub fn chars_of(s: &str) -> (r: Vec<char>)
    ensures
        r@ == s@,
{
    let n = s.unicode_len();
    let mut v: Vec<char> = Vec::new();
    let mut i: usize = 0;
    while i < n
        invariant
            n == s@.len(),
            i <= n,
            v@ == s@.subrange(0, i as int),
        decreases n - i,
    {
        let c = s.get_char(i);
        v.push(c);
        i += 1;
        assert(v@ =~= s@.subrange(0, i as int));
    }
    assert(v@ =~= s@);
    v
}

fn is_digit_char(c: char) -> (r: bool)
    ensures
        r == is_digit(c),
{
    '0' <= c && c <= '9'
}

fn is_space_char(c: char) -> (r: bool)
    ensures
        r == is_space(c),
{
    c == ' ' || c == '\t' || c == '\n' || c == '\r' || c == '\x0B' || c == '\x0C'
}

/// Whether `v` holds the characters of `p` from position `at`.
fn has_at(v: &Vec<char>, at: usize, p: &str) -> (r: bool)
    requires
        at <= v@.len(),
    ensures
        r == (at + p@.len() <= v@.len() && v@.subrange(at as int, at + p@.len()) == p@),
{
    let m = p.unicode_len();
    if m > v.len() - at {
        return false;
    }
    let mut i: usize = 0;
    while i < m
        invariant
            m == p@.len(),
            at + m <= v.len(),
            i <= m,
            forall|k: int| 0 <= k < i ==> v@[at + k] == p@[k],
        decreases m - i,
    {
        if v[at + i] != p.get_char(i) {
            assert(v@.subrange(at as int, at + m)[i as int] != p@[i as int]);
            return false;
        }
        i += 1;
    }
    assert(v@.subrange(at as int, at + m) =~= p@);
    true
}

/// Whether every character of `v` in `[a, b)` is a digit, or a hex digit when `hex`.
fn all_in(v: &Vec<char>, a: usize, b: usize, hex: bool) -> (r: bool)
    requires
        a <= b <= v@.len(),
    ensures
        !hex ==> r == all_digits(v@.subrange(a as int, b as int)),
        hex ==> r == all_hex(v@.subrange(a as int, b as int)),
{
    let ghost s = v@.subrange(a as int, b as int);
    let mut i = a;
    while i < b
        invariant
            a <= i <= b <= v@.len(),
            s == v@.subrange(a as int, b as int),
            !hex ==> forall|k: int| a <= k < i ==> is_digit(v@[k]),
            hex ==> forall|k: int| a <= k < i ==> is_hex(v@[k]),
        decreases b - i,
    {
        let c = v[i];
        let ok = if hex {
            is_digit_char(c) || ('a' <= c && c <= 'f')
        } else {
            is_digit_char(c)
        };
        if !ok {
            assert(s[i - a] == c);
            return false;
        }
        i += 1;
    }
    assert forall|k: int| 0 <= k < s.len() implies (!hex ==> is_digit(s[k])) && (hex ==> is_hex(
        s[k],
    )) by {
        assert(s[k] == v@[a + k]);
    }
    true
}

fn word3_at(v: &Vec<char>, a: usize) -> (r: bool)
    requires
        a + 3 <= v.len(),
    ensures
        r == is_word3(v@.subrange(a as int, a + 3)),
{
    let c0 = v[a];
    let c1 = v[a + 1];
    let c2 = v[a + 2];
    'A' <= c0 && c0 <= 'Z' && 'a' <= c1 && c1 <= 'z' && 'a' <= c2 && c2 <= 'z'
}

fn time_at(v: &Vec<char>, a: usize) -> (r: bool)
    requires
        a + 8 <= v.len(),
    ensures
        r == is_time(v@.subrange(a as int, a + 8)),
{
    is_digit_char(v[a]) && is_digit_char(v[a + 1]) && v[a + 2] == ':' && is_digit_char(v[a + 3])
        && is_digit_char(v[a + 4]) && v[a + 5] == ':' && is_digit_char(v[a + 6]) && is_digit_char(
        v[a + 7],
    )
}

fn from_date_at(v: &Vec<char>, a: usize) -> (r: bool)
    requires
        a <= v@.len(),
    ensures
        r == is_from_date(v@.subrange(a as int, v@.len() as int)),
{
    let ghost s = v@.subrange(a as int, v@.len() as int);
    let n = v.len();
    if n - a < 19 {
        return false;
    }
    let r = word3_at(v, a) && v[a + 3] == ' ' && all_in(v, a + 4, n - 14, false) && v[n - 14]
        == ' ' && time_at(v, n - 13) && v[n - 5] == ' ' && all_in(v, n - 4, n, false);
    assert(s.subrange(0, 3) =~= v@.subrange(a as int, a + 3));
    assert(s.subrange(4, s.len() - 14) =~= v@.subrange(a + 4, n - 14));
    assert(s.subrange(s.len() - 13, s.len() - 5) =~= v@.subrange(n - 13, n - 5));
    assert(s.subrange(s.len() - 4, s.len() as int) =~= v@.subrange(n - 4, n as int));
    r
}

fn date_value_at(v: &Vec<char>, a: usize) -> (r: bool)
    requires
        a <= v@.len(),
    ensures
        r == is_date_value(v@.subrange(a as int, v@.len() as int)),
{
    let ghost s = v@.subrange(a as int, v@.len() as int);
    let n = v.len();
    if n - a < 25 {
        return false;
    }
    let r = all_in(v, a, n - 24, false) && v[n - 24] == ' ' && word3_at(v, n - 23) && v[n - 20]
        == ' ' && all_in(v, n - 19, n - 15, false) && v[n - 15] == ' ' && time_at(v, n - 14)
        && v[n - 6] == ' ' && (v[n - 5] == '+' || v[n - 5] == '-') && all_in(v, n - 4, n, false);
    assert(s.subrange(0, s.len() - 24) =~= v@.subrange(a as int, n - 24));
    assert(s.subrange(s.len() - 23, s.len() - 20) =~= v@.subrange(n - 23, n - 20));
    assert(s.subrange(s.len() - 19, s.len() - 15) =~= v@.subrange(n - 19, n - 15));
    assert(s.subrange(s.len() - 14, s.len() - 6) =~= v@.subrange(n - 14, n - 6));
    assert(s.subrange(s.len() - 4, s.len() as int) =~= v@.subrange(n - 4, n as int));
    r
}

fn counter_body_at(v: &Vec<char>, a: usize, b: usize) -> (r: bool)
    requires
        a <= b <= v@.len(),
    ensures
        r == is_counter_body(v@.subrange(a as int, b as int)),
{
    let ghost s = v@.subrange(a as int, b as int);
    let mut i = a;
    while i < b && is_digit_char(v[i])
        invariant
            a <= i <= b <= v@.len(),
            forall|k: int| a <= k < i ==> is_digit(v@[k]),
        decreases b - i,
    {
        i += 1;
    }
    let mut j = i;
    while j < b && v[j] == '/'
        invariant
            i <= j <= b <= v@.len(),
            forall|k: int| i <= k < j ==> v@[k] == '/',
        decreases b - j,
    {
        j += 1;
    }
    let mut k = j;
    while k < b && is_digit_char(v[k])
        invariant
            j <= k <= b <= v@.len(),
            forall|m: int| j <= m < k ==> is_digit(v@[m]),
        decreases b - k,
    {
        k += 1;
    }
    let ghost ri = i - a;
    let ghost rj = j - a;
    if k == b {
        assert(all_digits(s.subrange(0, ri))) by {
            assert forall|m: int| 0 <= m < ri implies is_digit(#[trigger] s.subrange(0, ri)[m]) by {
                assert(s.subrange(0, ri)[m] == v@[a + m]);
            }
        }
        assert(all_slashes(s.subrange(ri, rj))) by {
            assert forall|m: int| 0 <= m < rj - ri implies #[trigger] s.subrange(ri, rj)[m]
                == '/' by {
                assert(s.subrange(ri, rj)[m] == v@[i + m]);
            }
        }
        assert(all_digits(s.subrange(rj, s.len() as int))) by {
            assert forall|m: int| 0 <= m < s.len() - rj implies is_digit(
                #[trigger] s.subrange(rj, s.len() as int)[m],
            ) by {
                assert(s.subrange(rj, s.len() as int)[m] == v@[j + m]);
            }
        }
        true
    } else {
        let ghost rk = k - a;
        assert(!is_digit(s[rk]));
        assert(s[rj] != '/');
        assert(!is_digit(s[ri]));
        assert forall|x: int, y: int|
            0 <= x <= y <= s.len() && all_digits(#[trigger] s.subrange(0, x)) && all_slashes(
                #[trigger] s.subrange(x, y),
            ) implies !all_digits(s.subrange(y, s.len() as int)) by {
            if y <= rk {
                assert(s.subrange(y, s.len() as int)[rk - y] == s[rk]);
            } else if x <= rj {
                assert(s.subrange(x, y)[rj - x] == s[rj]);
            } else {
                assert(s.subrange(0, x)[ri] == s[ri]);
            }
        }
        false
    }
}

fn counter_at(v: &Vec<char>, a: usize, b: usize) -> (r: bool)
    requires
        a <= b <= v@.len(),
    ensures
        r == is_counter(v@.subrange(a as int, b as int)),
{
    let ghost s = v@.subrange(a as int, b as int);
    if a < b {
        assert(s.subrange(1, s.len() as int) =~= v@.subrange(a + 1, b as int));
        assert(s[0] == v@[a as int]);
    }
    if counter_body_at(v, a, b) {
        true
    } else if a < b && is_space_char(v[a]) {
        counter_body_at(v, a + 1, b)
    } else {
        false
    }
}

pub open spec fn opt_string_view(o: Option<String>) -> Option<Seq<char>> {
    match o {
        Some(s) => Some(s@),
        None => None,
    }
}

pub open spec fn opt_pair_view(o: Option<(String, String)>) -> Option<(Seq<char>, Seq<char>)> {
    match o {
        Some((a, b)) => Some((a@, b@)),
        None => None,
    }
}

fn substring(s: &str, from: usize, to: usize) -> (r: String)
    requires
        from <= to <= s@.len(),
    ensures
        r@ == s@.subrange(from as int, to as int),
{
    String::from_str(s.substring_char(from, to))
}

/// Recognises the first line, `From <hash> <weekday> <date>`, and returns the
/// hash and the date.
pub fn match_hash_line(line: &str) -> (r: Option<(String, String)>)
    ensures
        opt_pair_view(r) == hash_line(line@),
{
    let v = chars_of(line);
    let n = v.len();
    proof {
        reveal_strlit("From ");
    }
    if n >= 50 && has_at(&v, 0, "From ") && all_in(&v, 5, 45, true) && v[45] == ' ' && word3_at(
        &v,
        46,
    ) && v[49] == ' ' && from_date_at(&v, 50) {
        Some((substring(line, 5, 45), substring(line, 50, n)))
    } else {
        None
    }
}

/// Recognises `From: <author>` and returns the author.
pub fn match_author_line(line: &str) -> (r: Option<String>)
    ensures
        opt_string_view(r) == author_line(line@),
{
    let v = chars_of(line);
    let n = v.len();
    proof {
        reveal_strlit("From: ");
    }
    if n > 6 && has_at(&v, 0, "From: ") {
        Some(substring(line, 6, n))
    } else {
        None
    }
}

/// Recognises `Date: <weekday>, <date>` and returns the date.
pub fn match_date_line(line: &str) -> (r: Option<String>)
    ensures
        opt_string_view(r) == date_line(line@),
{
    let v = chars_of(line);
    let n = v.len();
    proof {
        reveal_strlit("Date: ");
    }
    if n >= 11 && has_at(&v, 0, "Date: ") && word3_at(&v, 6) && v[9] == ',' && v[10] == ' '
        && date_value_at(&v, 11) {
        Some(substring(line, 11, n))
    } else {
        None
    }
}

/// Recognises `Subject: [PATCH<counter>] <text>` and returns the text, without
/// the bracketed prefix.
pub fn match_subject_line(line: &str) -> (r: Option<String>)
    ensures
        opt_string_view(r) == subject_line(line@),
{
    let v = chars_of(line);
    let n = v.len();
    proof {
        reveal_strlit("Subject: [PATCH");
    }
    if n < 15 || !has_at(&v, 0, "Subject: [PATCH") {
        assert(!exists|k: int| subject_at(line@, k));
        return None;
    }
    let mut k: usize = 15;
    while k < n && v[k] != ']'
        invariant
            15 <= k <= n,
            n == v@.len(),
            forall|m: int| 15 <= m < k ==> v@[m] != ']',
        decreases n - k,
    {
        k += 1;
    }
    if k < n && n - k > 2 && v[k + 1] == ' ' && counter_at(&v, 15, k) {
        assert(subject_at(line@, k as int));
        proof {
            let c = choose|c: int| subject_at(line@, c);
            lemma_subject_at_unique(line@, c, k as int);
        }
        Some(substring(line, k + 2, n))
    } else {
        assert forall|c: int| !subject_at(line@, c) by {
            if subject_at(line@, c) {
                if c < k {
                    assert(v@[c] == ']');
                } else if c > k {
                    lemma_counter_has_no_bracket(line@.subrange(15, c), k - 15);
                }
            }
        }
        None
    }
}

/// Whether `line` is the `---` line that ends the commit message.
pub fn is_delimiter_line(line: &str) -> (r: bool)
    ensures
        r == is_delimiter(line@),
{
    let v = chars_of(line);
    proof {
        reveal_strlit("---");
    }
    let r = v.len() == 3 && v[0] == '-' && v[1] == '-' && v[2] == '-';
    if r {
        assert(line@ =~= "---"@);
    }
    r
}

} // verus!
