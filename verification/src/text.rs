//! Character-level helpers over `str` and `String`: trimming, splitting,
//! substring search and decimal numbers.
use vstd::prelude::*;
use vstd::string::*;

verus! {

broadcast use vstd::string::group_string_axioms;

/// The characters of `s`, in order.
pub fn chars_of(s: &str) -> (v: Vec<char>)
    ensures
        v@ == s@,
{
    let mut v: Vec<char> = Vec::new();
    for c in it: s.chars()
        invariant
            it.seq() == s@,
            v@ == it.seq().take(it.index() as int),
    {
        v.push(c);
    }
    v
}

/// `String::push`: appends one character.
#[verifier::external_body]
fn push_char(s: &mut String, c: char)
    ensures
        final(s)@ == old(s)@.push(c),
{
    s.push(c);
}

/// A `String` holding the characters `v[from..to]`.
pub fn string_from_chars(v: &Vec<char>, from: usize, to: usize) -> (s: String)
    requires
        from <= to <= v.len(),
    ensures
        s@ == v@.subrange(from as int, to as int),
{
    let mut s = String::new();
    let mut i = from;
    while i < to
        invariant
            from <= i <= to <= v.len(),
            s@ == v@.subrange(from as int, i as int),
        decreases to - i,
    {
        push_char(&mut s, v[i]);
        i = i + 1;
    }
    s
}

/// A `String` holding the given text followed by the given string.
pub fn concat_str(prefix: &str, rest: &str) -> (s: String)
    ensures
        s@ == prefix@ + rest@,
{
    let mut s = String::from_str(prefix);
    s.append(rest);
    s
}

/// Unicode `White_Space`: the characters that `char::is_whitespace` accepts.
pub open spec fn is_white_space(c: char) -> bool {
    let u = c as u32;
    ||| 0x09 <= u <= 0x0D
    ||| u == 0x20
    ||| u == 0x85
    ||| u == 0xA0
    ||| u == 0x1680
    ||| 0x2000 <= u <= 0x200A
    ||| u == 0x2028
    ||| u == 0x2029
    ||| u == 0x202F
    ||| u == 0x205F
    ||| u == 0x3000
}

/// Whether `c` is Unicode white space.
pub fn is_whitespace_char(c: char) -> (b: bool)
    ensures
        b == is_white_space(c),
{
    let u = c as u32;
    (0x09 <= u && u <= 0x0D) || u == 0x20 || u == 0x85 || u == 0xA0 || u == 0x1680 || (0x2000 <= u
        && u <= 0x200A) || u == 0x2028 || u == 0x2029 || u == 0x202F || u == 0x205F || u == 0x3000
}

/// `s` without its leading white space.
pub open spec fn trim_start(s: Seq<char>) -> Seq<char>
    decreases s.len(),
{
    if s.len() > 0 && is_white_space(s[0]) {
        trim_start(s.drop_first())
    } else {
        s
    }
}

/// `s` without its trailing white space.
pub open spec fn trim_end(s: Seq<char>) -> Seq<char>
    decreases s.len(),
{
    if s.len() > 0 && is_white_space(s.last()) {
        trim_end(s.drop_last())
    } else {
        s
    }
}

/// `s` without leading and trailing white space (`str::trim`).
pub open spec fn trim(s: Seq<char>) -> Seq<char> {
    trim_end(trim_start(s))
}

proof fn lemma_trim_start_skip(s: Seq<char>, i: int)
    requires
        0 <= i <= s.len(),
        forall|k: int| 0 <= k < i ==> is_white_space(#[trigger] s[k]),
    ensures
        trim_start(s) == trim_start(s.skip(i)),
    decreases i,
{
    if i > 0 {
        assert(is_white_space(s[0]));
        lemma_trim_start_skip(s.drop_first(), i - 1);
        assert(s.drop_first().skip(i - 1) =~= s.skip(i));
    } else {
        assert(s.skip(0) =~= s);
    }
}

proof fn lemma_trim_end_take(s: Seq<char>, j: int)
    requires
        0 <= j <= s.len(),
        forall|k: int| j <= k < s.len() ==> is_white_space(#[trigger] s[k]),
    ensures
        trim_end(s) == trim_end(s.take(j)),
    decreases s.len() - j,
{
    if j < s.len() {
        assert(is_white_space(s.last()));
        lemma_trim_end_take(s.drop_last(), j);
        assert(s.drop_last().take(j) =~= s.take(j));
    } else {
        assert(s.take(j) =~= s);
    }
}

/// The bounds `[i, j)` of `trim(v)` inside `v`.
fn trim_bounds(v: &Vec<char>) -> (r: (usize, usize))
    ensures
        r.0 <= r.1 <= v.len(),
        v@.subrange(r.0 as int, r.1 as int) == trim(v@),
{
    let n = v.len();
    let mut i: usize = 0;
    while i < n && is_whitespace_char(v[i])
        invariant
            i <= n == v.len(),
            forall|k: int| 0 <= k < i ==> is_white_space(#[trigger] v@[k]),
        decreases n - i,
    {
        i = i + 1;
    }
    let mut j: usize = n;
    while j > i && is_whitespace_char(v[j - 1])
        invariant
            i <= j <= n == v.len(),
            forall|k: int| j <= k < n ==> is_white_space(#[trigger] v@[k]),
        decreases j - i,
    {
        j = j - 1;
    }
    proof {
        let s = v@;
        lemma_trim_start_skip(s, i as int);
        assert(trim_start(s.skip(i as int)) == s.skip(i as int));
        let t = s.skip(i as int);
        assert forall|k: int| (j - i) <= k < t.len() implies is_white_space(#[trigger] t[k]) by {
            assert(t[k] == s[k + i]);
        }
        lemma_trim_end_take(t, j - i);
        assert(t.take(j - i) =~= s.subrange(i as int, j as int));
    }
    (i, j)
}

/// `str::trim`, as an owned `String`.
pub fn trim_string(s: &str) -> (r: String)
    ensures
        r@ == trim(s@),
{
    let v = chars_of(s);
    let (i, j) = trim_bounds(&v);
    string_from_chars(&v, i, j)
}

/// The fields of `s` separated by `sep` (`str::split(sep)`): there is always
/// one more field than there are separators.
pub open spec fn split_on<T>(s: Seq<T>, sep: T) -> Seq<Seq<T>>
    decreases s.len(),
{
    if s.len() == 0 {
        seq![Seq::<T>::empty()]
    } else {
        let prev = split_on(s.drop_last(), sep);
        if s.last() == sep {
            prev.push(Seq::<T>::empty())
        } else {
            prev.update(prev.len() - 1, prev.last().push(s.last()))
        }
    }
}

proof fn lemma_split_on_nonempty<T>(s: Seq<T>, sep: T)
    ensures
        split_on(s, sep).len() >= 1,
    decreases s.len(),
{
    if s.len() > 0 {
        lemma_split_on_nonempty(s.drop_last(), sep);
    }
}

/// The trimmed fields of `fields` that are not empty, in order.
pub open spec fn nonempty_trimmed(fields: Seq<Seq<char>>) -> Seq<Seq<char>>
    decreases fields.len(),
{
    if fields.len() == 0 {
        Seq::empty()
    } else {
        let rest = nonempty_trimmed(fields.drop_last());
        let t = trim(fields.last());
        if t.len() > 0 {
            rest.push(t)
        } else {
            rest
        }
    }
}

/// Every item that [`nonempty_trimmed`] keeps is non-empty and is one of the
/// fields, trimmed.
pub proof fn lemma_nonempty_trimmed_items(fields: Seq<Seq<char>>)
    ensures
        forall|k: int|
            0 <= k < nonempty_trimmed(fields).len() ==> (#[trigger] nonempty_trimmed(fields)[k]).len()
                > 0 && exists|j: int| 0 <= j < fields.len() && trim(fields[j]) == nonempty_trimmed(
                fields,
            )[k],
    decreases fields.len(),
{
    if fields.len() > 0 {
        let prev = fields.drop_last();
        lemma_nonempty_trimmed_items(prev);
        let rest = nonempty_trimmed(prev);
        assert forall|k: int| 0 <= k < nonempty_trimmed(fields).len() implies (
        #[trigger] nonempty_trimmed(fields)[k]).len() > 0 && exists|j: int|
            0 <= j < fields.len() && trim(fields[j]) == nonempty_trimmed(fields)[k] by {
            if k < rest.len() {
                assert(nonempty_trimmed(fields)[k] == rest[k]);
                let j = choose|j: int| 0 <= j < prev.len() && trim(prev[j]) == rest[k];
                assert(fields[j] == prev[j]);
            } else {
                assert(trim(fields[fields.len() - 1]) == nonempty_trimmed(fields)[k]);
            }
        }
    }
}

/// A comma-separated list read as its trimmed, non-empty items.
pub open spec fn comma_list(s: Seq<char>) -> Seq<Seq<char>> {
    nonempty_trimmed(split_on(s, ','))
}

/// The views of a sequence of strings.
pub open spec fn strings_view(v: Seq<String>) -> Seq<Seq<char>> {
    v.map_values(|x: String| x@)
}

/// The chars `v[from..to]` with leading and trailing white space removed.
fn trimmed_field(v: &Vec<char>, from: usize, to: usize) -> (r: String)
    requires
        from <= to <= v.len(),
    ensures
        r@ == trim(v@.subrange(from as int, to as int)),
{
    let mut i = from;
    while i < to && is_whitespace_char(v[i])
        invariant
            from <= i <= to <= v.len(),
            forall|k: int| from <= k < i ==> is_white_space(#[trigger] v@[k]),
        decreases to - i,
    {
        i = i + 1;
    }
    let mut j = to;
    while j > i && is_whitespace_char(v[j - 1])
        invariant
            from <= i <= j <= to <= v.len(),
            forall|k: int| j <= k < to ==> is_white_space(#[trigger] v@[k]),
        decreases j - i,
    {
        j = j - 1;
    }
    proof {
        let s = v@.subrange(from as int, to as int);
        assert forall|k: int| 0 <= k < i - from implies is_white_space(#[trigger] s[k]) by {
            assert(s[k] == v@[k + from]);
        }
        lemma_trim_start_skip(s, i - from);
        let t = s.skip(i - from);
        assert(trim_start(t) == t);
        assert forall|k: int| (j - i) <= k < t.len() implies is_white_space(#[trigger] t[k]) by {
            assert(t[k] == v@[k + i]);
        }
        lemma_trim_end_take(t, j - i);
        assert(t.take(j - i) =~= v@.subrange(i as int, j as int));
    }
    string_from_chars(v, i, j)
}

/// A text without the separator is one field.
pub proof fn lemma_split_on_single<T>(y: Seq<T>, sep: T)
    requires
        forall|k: int| 0 <= k < y.len() ==> y[k] != sep,
    ensures
        split_on(y, sep) == seq![y],
    decreases y.len(),
{
    if y.len() > 0 {
        assert forall|k: int| 0 <= k < y.drop_last().len() implies y.drop_last()[k] != sep by {
            assert(y.drop_last()[k] == y[k]);
        }
        lemma_split_on_single(y.drop_last(), sep);
        assert(y.drop_last().push(y.last()) =~= y);
        assert(y.last() == y[y.len() - 1]);
        assert(seq![y.drop_last()].update(0, y.drop_last().push(y.last())) =~= seq![y]);
    } else {
        assert(y =~= Seq::<T>::empty());
    }
}

/// A separator followed by a text without the separator adds that text as
/// one more field: `split(x + sep + y) == split(x) + [y]`.
pub proof fn lemma_split_on_append<T>(x: Seq<T>, sep: T, y: Seq<T>)
    requires
        forall|k: int| 0 <= k < y.len() ==> y[k] != sep,
    ensures
        split_on(x + seq![sep] + y, sep) == split_on(x, sep).push(y),
    decreases y.len(),
{
    let s = x + seq![sep] + y;
    if y.len() == 0 {
        assert(s.drop_last() =~= x);
        assert(s =~= x + seq![sep]);
        assert(y =~= Seq::<T>::empty());
    } else {
        let y0 = y.drop_last();
        assert forall|k: int| 0 <= k < y0.len() implies y0[k] != sep by {
            assert(y0[k] == y[k]);
        }
        lemma_split_on_append(x, sep, y0);
        assert(y0.push(y.last()) =~= y);
        assert(y.last() == y[y.len() - 1]);
        assert(s.drop_last() =~= x + seq![sep] + y0);
        assert(s.last() == y.last());
        let prev = split_on(x, sep).push(y0);
        assert(prev.update(prev.len() - 1, y0.push(y.last())) =~= split_on(x, sep).push(y));
    }
}

proof fn lemma_split_on_step<T>(s: Seq<T>, sep: T, i: int, start: int)
    requires
        0 <= start <= i < s.len(),
        forall|k: int| start <= k < i ==> #[trigger] s[k] != sep,
        split_on(s.take(i), sep).last() == s.subrange(start, i),
    ensures
        s[i] != sep ==> split_on(s.take(i + 1), sep).last() == s.subrange(start, i + 1),
        s[i] != sep ==> split_on(s.take(i + 1), sep).drop_last() == split_on(
            s.take(i),
            sep,
        ).drop_last(),
        s[i] == sep ==> split_on(s.take(i + 1), sep) == split_on(s.take(i), sep).push(
            Seq::<T>::empty(),
        ),
{
    lemma_split_on_nonempty(s.take(i), sep);
    assert(s.take(i + 1).drop_last() =~= s.take(i));
    assert(s.take(i + 1).last() == s[i]);
    if s[i] != sep {
        assert(s.subrange(start, i).push(s[i]) =~= s.subrange(start, i + 1));
        let prev = split_on(s.take(i), sep);
        assert(prev.update(prev.len() - 1, prev.last().push(s[i])).drop_last() =~= prev.drop_last());
    }
}

/// The trimmed, non-empty items of a comma-separated list.
pub fn parse_comma_list(s: &str) -> (r: Vec<String>)
    ensures
        strings_view(r@) == comma_list(s@),
{
    let v = chars_of(s);
    let n = v.len();
    let mut out: Vec<String> = Vec::new();
    let mut start: usize = 0;
    let mut i: usize = 0;
    proof {
        assert(v@.take(0) =~= Seq::<char>::empty());
        assert(v@.subrange(0, 0) =~= Seq::<char>::empty());
    }
    while i < n
        invariant
            start <= i <= n == v.len(),
            v@ == s@,
            forall|k: int| start <= k < i ==> #[trigger] v@[k] != ',',
            split_on(v@.take(i as int), ',').last() == v@.subrange(start as int, i as int),
            strings_view(out@) == nonempty_trimmed(split_on(v@.take(i as int), ',').drop_last()),
        decreases n - i,
    {
        proof {
            lemma_split_on_step(v@, ',', i as int, start as int);
        }
        if v[i] == ',' {
            let f = trimmed_field(&v, start, i);
            let ghost prev = split_on(v@.take(i as int), ',');
            proof {
                lemma_split_on_nonempty(v@.take(i as int), ',');
                assert(prev.push(Seq::<char>::empty()).drop_last() =~= prev);
                assert(prev.drop_last().push(prev.last()) =~= prev);
            }
            if f.as_str().is_empty() {
            } else {
                out.push(f);
                proof {
                    assert(strings_view(out@) =~= strings_view(out@.drop_last()).push(f@));
                }
            }
            start = i + 1;
            proof {
                assert(v@.subrange(start as int, start as int) =~= Seq::<char>::empty());
            }
        }
        i = i + 1;
    }
    let f = trimmed_field(&v, start, n);
    let ghost all = split_on(v@.take(n as int), ',');
    proof {
        assert(v@.take(n as int) =~= v@);
        lemma_split_on_nonempty(v@, ',');
        assert(all.drop_last().push(all.last()) =~= all);
    }
    if !f.as_str().is_empty() {
        out.push(f);
        proof {
            assert(strings_view(out@) =~= strings_view(out@.drop_last()).push(f@));
        }
    }
    out
}

/// Whether `p` occurs in `s` as a contiguous run of characters.
pub open spec fn contains_seq(s: Seq<char>, p: Seq<char>) -> bool {
    exists|i: int| 0 <= i && i + p.len() <= s.len() && #[trigger] s.subrange(i, i + p.len()) == p
}

/// Whether `p` matches `s` at position `i`.
pub fn matches_at(s: &Vec<char>, p: &Vec<char>, i: usize) -> (b: bool)
    requires
        i + p.len() <= s.len(),
    ensures
        b == (s@.subrange(i as int, i + p.len()) == p@),
{
    let mut k: usize = 0;
    while k < p.len()
        invariant
            k <= p.len(),
            i + p.len() <= s.len(),
            forall|m: int| 0 <= m < k ==> s@[i + m] == p@[m],
        decreases p.len() - k,
    {
        if s[i + k] != p[k] {
            assert(s@.subrange(i as int, i + p.len())[k as int] != p@[k as int]);
            return false;
        }
        k = k + 1;
    }
    assert(s@.subrange(i as int, i + p.len()) =~= p@);
    true
}

/// Whatever stands before and after it, a pattern occurs in any text that
/// holds it: `p` occurs in `a + p + b` for every `a` and `b`.
pub proof fn lemma_contains_infix(a: Seq<char>, p: Seq<char>, b: Seq<char>)
    ensures
        contains_seq(a + p + b, p),
{
    let s = a + p + b;
    assert(s.subrange(a.len() as int, (a.len() + p.len()) as int) =~= p);
}

/// `str::contains` for a string pattern, over characters.
pub fn contains_chars(s: &Vec<char>, p: &Vec<char>) -> (b: bool)
    ensures
        b == contains_seq(s@, p@),
        b <==> exists|i: int|
            0 <= i && i + p@.len() <= s@.len() && #[trigger] s@.subrange(i, i + p@.len()) == p@,
{
    if p.len() > s.len() {
        return false;
    }
    let last = s.len() - p.len();
    let mut i: usize = 0;
    while i <= last
        invariant
            last + p.len() == s.len(),
            i <= last,
            forall|j: int| 0 <= j < i ==> #[trigger] s@.subrange(j, j + p.len()) != p@,
        decreases last + 1 - i,
    {
        if matches_at(s, p, i) {
            return true;
        }
        if i == last {
            return false;
        }
        i = i + 1;
    }
    false
}

/// Whether `s` begins with `p`.
pub open spec fn has_prefix(s: Seq<char>, p: Seq<char>) -> bool {
    p.len() <= s.len() && s.take(p.len() as int) == p
}

/// Whether the characters of `s` begin with those of `p`.
pub fn starts_with_chars(s: &Vec<char>, p: &Vec<char>) -> (b: bool)
    ensures
        b == has_prefix(s@, p@),
{
    if p.len() > s.len() {
        return false;
    }
    let b = matches_at(s, p, 0);
    assert(s@.subrange(0, p@.len() as int) =~= s@.take(p@.len() as int));
    b
}

/// Whether `s` and `p` hold the same characters.
pub fn same_chars(s: &Vec<char>, p: &Vec<char>) -> (b: bool)
    ensures
        b == (s@ == p@),
{
    if p.len() != s.len() {
        return false;
    }
    let b = matches_at(s, p, 0);
    assert(s@.subrange(0, p@.len() as int) =~= s@);
    b
}

/// The ASCII digit for `d`.
pub open spec fn digit_char(d: nat) -> char {
    (('0' as u32) + d) as char
}

/// The decimal digits of `n`, most significant first, with no leading zero.
pub open spec fn decimal(n: nat) -> Seq<char>
    decreases n,
{
    if n < 10 {
        seq![digit_char(n)]
    } else {
        decimal(n / 10).push(digit_char(n % 10))
    }
}

/// The decimal representation of `n` (`u64::to_string`).
pub fn decimal_string(n: u64) -> (s: String)
    ensures
        s@ == decimal(n as nat),
    decreases n,
{
    if n < 10 {
        let mut s = String::new();
        push_char(&mut s, char_of_digit(n));
        s
    } else {
        let mut s = decimal_string(n / 10);
        push_char(&mut s, char_of_digit(n % 10));
        s
    }
}

fn char_of_digit(d: u64) -> (c: char)
    requires
        d < 10,
    ensures
        c == digit_char(d as nat),
{
    let u: u8 = 48 + d as u8;
    u as char
}

/// Whether `c` is an ASCII decimal digit.
pub open spec fn is_digit(c: char) -> bool {
    48 <= (c as u32) <= 57
}

/// The value of the decimal digits `d`.
pub open spec fn digits_value(d: Seq<char>) -> nat
    decreases d.len(),
{
    if d.len() == 0 {
        0
    } else {
        digits_value(d.drop_last()) * 10 + ((d.last() as u32) - ('0' as u32)) as nat
    }
}

/// The digit part of the text that `u64::from_str` reads: all but a leading `+`.
pub open spec fn unsigned_digits(s: Seq<char>) -> Seq<char> {
    if s.len() > 0 && s[0] == '+' {
        s.drop_first()
    } else {
        s
    }
}

/// What `u64::from_str` returns: the value of an optional `+` followed by
/// one or more ASCII digits, when it fits in a `u64`.
pub open spec fn parse_u64_spec(s: Seq<char>) -> Option<u64> {
    let d = unsigned_digits(s);
    if d.len() > 0 && (forall|k: int| 0 <= k < d.len() ==> is_digit(#[trigger] d[k]))
        && digits_value(d) <= u64::MAX {
        Some(digits_value(d) as u64)
    } else {
        None
    }
}

proof fn lemma_digits_value_monotone(d: Seq<char>, k: int)
    requires
        0 <= k <= d.len(),
        forall|m: int| 0 <= m < d.len() ==> is_digit(#[trigger] d[m]),
    ensures
        digits_value(d.take(k)) <= digits_value(d),
    decreases d.len() - k,
{
    if k < d.len() {
        lemma_digits_value_monotone(d.drop_last(), k);
        assert(d.drop_last().take(k) =~= d.take(k));
    } else {
        assert(d.take(k) =~= d);
    }
}

/// `u64::from_str`: `None` exactly where the standard parser returns an error.
pub fn parse_u64(s: &str) -> (r: Option<u64>)
    ensures
        r == parse_u64_spec(s@),
{
    let v = chars_of(s);
    let n = v.len();
    let start: usize = if n > 0 && v[0] == '+' {
        1
    } else {
        0
    };
    let ghost d = unsigned_digits(s@);
    proof {
        assert(d =~= v@.skip(start as int));
    }
    if start == n {
        return None;
    }
    let mut acc: u64 = 0;
    let mut i: usize = start;
    while i < n
        invariant
            start <= i <= n == v.len(),
            d == v@.skip(start as int),
            d == unsigned_digits(s@),
            d.len() > 0,
            forall|k: int| 0 <= k < i - start ==> is_digit(#[trigger] d[k]),
            acc == digits_value(d.take(i - start)),
        decreases n - i,
    {
        let c = v[i];
        let u = c as u32;
        assert(d[i - start] == c);
        if u < 48 || u > 57 {
            assert(!is_digit(d[i - start]));
            return None;
        }
        proof {
            assert(d.take(i - start + 1).drop_last() =~= d.take(i - start));
            assert(d.take(i - start + 1).last() == c);
        }
        let dv = (u - 48) as u64;
        match acc.checked_mul(10) {
            Some(m) => match m.checked_add(dv) {
                Some(next) => {
                    acc = next;
                },
                None => {
                    proof {
                        assert(digits_value(d.take(i - start + 1)) > u64::MAX);
                        if forall|k: int| 0 <= k < d.len() ==> is_digit(#[trigger] d[k]) {
                            lemma_digits_value_monotone(d, i - start + 1);
                        }
                    }
                    return None;
                },
            },
            None => {
                proof {
                    assert(digits_value(d.take(i - start + 1)) > u64::MAX) by (nonlinear_arith)
                        requires
                            acc * 10 > u64::MAX,
                            digits_value(d.take(i - start + 1)) == acc * 10 + (u - 48) as nat,
                    ;
                    if forall|k: int| 0 <= k < d.len() ==> is_digit(#[trigger] d[k]) {
                        lemma_digits_value_monotone(d, i - start + 1);
                    }
                }
                return None;
            },
        }
        i = i + 1;
    }
    proof {
        assert(d.take(n - start) =~= d);
    }
    Some(acc)
}

/// Whether `t` is one of the strings of `v`.
pub fn contains_string(v: &Vec<String>, t: &String) -> (b: bool)
    ensures
        b == strings_view(v@).contains(t@),
{
    let mut i: usize = 0;
    while i < v.len()
        invariant
            i <= v.len(),
            forall|k: int| 0 <= k < i ==> v@[k]@ != t@,
        decreases v.len() - i,
    {
        if v[i] == *t {
            assert(strings_view(v@)[i as int] == t@);
            return true;
        }
        i = i + 1;
    }
    proof {
        if strings_view(v@).contains(t@) {
            let k = choose|k: int| 0 <= k < strings_view(v@).len() && strings_view(v@)[k] == t@;
            assert(v@[k]@ == t@);
        }
    }
    false
}

/// The words of `s`: its maximal runs of characters other than white space,
/// in order (`str::split_whitespace`).
pub open spec fn words(s: Seq<char>) -> Seq<Seq<char>>
    decreases s.len(),
{
    if s.len() == 0 {
        Seq::empty()
    } else {
        let prev = words(s.drop_last());
        let c = s.last();
        if is_white_space(c) {
            prev
        } else if s.len() > 1 && !is_white_space(s[s.len() - 2]) {
            prev.update(prev.len() - 1, prev.last().push(c))
        } else {
            prev.push(seq![c])
        }
    }
}

/// The words of `s` (see [`words`]), as strings.
pub fn split_words(s: &str) -> (r: Vec<String>)
    ensures
        strings_view(r@) == words(s@),
{
    let v = chars_of(s);
    let n = v.len();
    let mut out: Vec<String> = Vec::new();
    let mut start: usize = 0;
    let mut i: usize = 0;
    while i < n
        invariant
            start <= i <= n == v.len(),
            v@ == s@,
            start < i ==> !is_white_space(v@[i - 1]),
            start < i ==> forall|k: int| start <= k < i ==> !is_white_space(#[trigger] v@[k]),
            start < i ==> start == 0 || is_white_space(v@[start - 1]),
            start == i ==> (i == 0 || is_white_space(v@[i - 1])),
            start < i ==> words(v@.take(i as int)).len() >= 1 && words(v@.take(i as int)).last()
                == v@.subrange(start as int, i as int) && strings_view(out@) == words(
                v@.take(i as int),
            ).drop_last(),
            start == i ==> strings_view(out@) == words(v@.take(i as int)),
        decreases n - i,
    {
        let ghost prev = words(v@.take(i as int));
        proof {
            assert(v@.take(i + 1).drop_last() =~= v@.take(i as int));
            assert(v@.take(i + 1).last() == v@[i as int]);
            if i > 0 {
                assert(v@.take(i + 1)[i - 1] == v@[i - 1]);
            }
        }
        if is_whitespace_char(v[i]) {
            if start < i {
                let w = string_from_chars(&v, start, i);
                out.push(w);
                proof {
                    assert(strings_view(out@) =~= strings_view(out@.drop_last()).push(w@));
                    assert(prev.drop_last().push(prev.last()) =~= prev);
                }
            }
            start = i + 1;
        } else {
            proof {
                if start < i {
                    assert(v@.subrange(start as int, i as int).push(v@[i as int]) =~= v@.subrange(
                        start as int,
                        i + 1,
                    ));
                    assert(prev.update(prev.len() - 1, prev.last().push(v@[i as int])).drop_last()
                        =~= prev.drop_last());
                } else {
                    assert(seq![v@[i as int]] =~= v@.subrange(start as int, i + 1));
                    assert(prev.push(seq![v@[i as int]]).drop_last() =~= prev);
                }
            }
        }
        i = i + 1;
    }
    proof {
        assert(v@.take(n as int) =~= v@);
    }
    if start < n {
        let w = string_from_chars(&v, start, n);
        let ghost all = words(v@);
        out.push(w);
        proof {
            assert(strings_view(out@) =~= strings_view(out@.drop_last()).push(w@));
            assert(all.drop_last().push(all.last()) =~= all);
        }
    }
    out
}

/// The decimal representation of the integer `c`, with a leading `-` where
/// it is negative.
pub open spec fn signed_decimal(c: int) -> Seq<char> {
    if c < 0 {
        "-"@ + decimal((-c) as nat)
    } else {
        decimal(c as nat)
    }
}

/// The decimal representation of `c` (`i32::to_string`).
pub fn signed_decimal_string(c: i32) -> (s: String)
    ensures
        s@ == signed_decimal(c as int),
{
    if c < 0 {
        let magnitude: u64 = (-(c as i64)) as u64;
        let digits = decimal_string(magnitude);
        concat_str("-", digits.as_str())
    } else {
        decimal_string(c as u64)
    }
}

/// The fields of `v` separated by `sep` (see [`split_on`]), as strings.
pub fn split_chars(v: &Vec<char>, sep: char) -> (r: Vec<String>)
    ensures
        strings_view(r@) == split_on(v@, sep),
{
    let n = v.len();
    let mut out: Vec<String> = Vec::new();
    let mut start: usize = 0;
    let mut i: usize = 0;
    proof {
        assert(v@.take(0) =~= Seq::<char>::empty());
        assert(v@.subrange(0, 0) =~= Seq::<char>::empty());
    }
    while i < n
        invariant
            start <= i <= n == v.len(),
            forall|k: int| start <= k < i ==> #[trigger] v@[k] != sep,
            split_on(v@.take(i as int), sep).last() == v@.subrange(start as int, i as int),
            strings_view(out@) == split_on(v@.take(i as int), sep).drop_last(),
        decreases n - i,
    {
        proof {
            lemma_split_on_step(v@, sep, i as int, start as int);
        }
        if v[i] == sep {
            let f = string_from_chars(v, start, i);
            let ghost prev = split_on(v@.take(i as int), sep);
            proof {
                lemma_split_on_nonempty(v@.take(i as int), sep);
                assert(prev.push(Seq::<char>::empty()).drop_last() =~= prev);
                assert(prev.drop_last().push(prev.last()) =~= prev);
            }
            out.push(f);
            proof {
                assert(strings_view(out@) =~= strings_view(out@.drop_last()).push(f@));
            }
            start = i + 1;
            proof {
                assert(v@.subrange(start as int, start as int) =~= Seq::<char>::empty());
            }
        }
        i = i + 1;
    }
    let f = string_from_chars(v, start, n);
    let ghost all = split_on(v@.take(n as int), sep);
    proof {
        assert(v@.take(n as int) =~= v@);
        lemma_split_on_nonempty(v@, sep);
        assert(all.drop_last().push(all.last()) =~= all);
    }
    out.push(f);
    proof {
        assert(strings_view(out@) =~= strings_view(out@.drop_last()).push(f@));
    }
    out
}

/// The views of a sequence of byte vectors.
pub open spec fn bytes_view(v: Seq<Vec<u8>>) -> Seq<Seq<u8>> {
    v.map_values(|x: Vec<u8>| x@)
}

/// The bytes `v[from..to]`.
pub fn bytes_range(v: &Vec<u8>, from: usize, to: usize) -> (r: Vec<u8>)
    requires
        from <= to <= v.len(),
    ensures
        r@ == v@.subrange(from as int, to as int),
{
    let mut r: Vec<u8> = Vec::new();
    let mut i = from;
    while i < to
        invariant
            from <= i <= to <= v.len(),
            r@ == v@.subrange(from as int, i as int),
        decreases to - i,
    {
        r.push(v[i]);
        proof {
            assert(v@.subrange(from as int, i as int).push(v@[i as int]) =~= v@.subrange(
                from as int,
                i + 1,
            ));
        }
        i = i + 1;
    }
    r
}

/// Whether two byte vectors hold the same bytes.
pub fn same_bytes(a: &Vec<u8>, b: &Vec<u8>) -> (r: bool)
    ensures
        r == (a@ == b@),
{
    if a.len() != b.len() {
        return false;
    }
    let mut i: usize = 0;
    while i < a.len()
        invariant
            i <= a.len() == b.len(),
            forall|k: int| 0 <= k < i ==> a@[k] == b@[k],
        decreases a.len() - i,
    {
        if a[i] != b[i] {
            return false;
        }
        i = i + 1;
    }
    assert(a@ =~= b@);
    true
}

/// The fields of the bytes `v` separated by `sep` (see [`split_on`]).
pub fn split_bytes(v: &Vec<u8>, sep: u8) -> (r: Vec<Vec<u8>>)
    ensures
        bytes_view(r@) == split_on(v@, sep),
{
    let n = v.len();
    let mut out: Vec<Vec<u8>> = Vec::new();
    let mut start: usize = 0;
    let mut i: usize = 0;
    proof {
        assert(v@.take(0) =~= Seq::<u8>::empty());
        assert(v@.subrange(0, 0) =~= Seq::<u8>::empty());
    }
    while i < n
        invariant
            start <= i <= n == v.len(),
            forall|k: int| start <= k < i ==> #[trigger] v@[k] != sep,
            split_on(v@.take(i as int), sep).last() == v@.subrange(start as int, i as int),
            bytes_view(out@) == split_on(v@.take(i as int), sep).drop_last(),
        decreases n - i,
    {
        proof {
            lemma_split_on_step(v@, sep, i as int, start as int);
        }
        if v[i] == sep {
            let f = bytes_range(v, start, i);
            let ghost prev = split_on(v@.take(i as int), sep);
            proof {
                lemma_split_on_nonempty(v@.take(i as int), sep);
                assert(prev.push(Seq::<u8>::empty()).drop_last() =~= prev);
                assert(prev.drop_last().push(prev.last()) =~= prev);
            }
            out.push(f);
            proof {
                assert(bytes_view(out@) =~= bytes_view(out@.drop_last()).push(f@));
            }
            start = i + 1;
            proof {
                assert(v@.subrange(start as int, start as int) =~= Seq::<u8>::empty());
            }
        }
        i = i + 1;
    }
    let f = bytes_range(v, start, n);
    let ghost all = split_on(v@.take(n as int), sep);
    proof {
        assert(v@.take(n as int) =~= v@);
        lemma_split_on_nonempty(v@, sep);
        assert(all.drop_last().push(all.last()) =~= all);
    }
    out.push(f);
    proof {
        assert(bytes_view(out@) =~= bytes_view(out@.drop_last()).push(f@));
    }
    out
}

/// The characters of `s` that are not white space, in order.
pub open spec fn non_white(s: Seq<char>) -> Seq<char>
    decreases s.len(),
{
    if s.len() == 0 {
        Seq::empty()
    } else if is_white_space(s.last()) {
        non_white(s.drop_last())
    } else {
        non_white(s.drop_last()).push(s.last())
    }
}

/// The sequences of `ws` laid end to end.
pub open spec fn joined(ws: Seq<Seq<char>>) -> Seq<char>
    decreases ws.len(),
{
    if ws.len() == 0 {
        Seq::empty()
    } else {
        joined(ws.drop_last()) + ws.last()
    }
}

/// Splitting into words loses no character but white space and keeps every
/// word whole: the words laid end to end are the characters of `s` that are
/// not white space; every word is non-empty and holds no white space; and
/// where `s` ends in a character other than white space, the last word ends
/// with that character.
pub proof fn lemma_words_cover(s: Seq<char>)
    ensures
        joined(words(s)) == non_white(s),
        forall|k: int|
            0 <= k < words(s).len() ==> (#[trigger] words(s)[k]).len() > 0 && forall|m: int|
                0 <= m < words(s)[k].len() ==> !is_white_space(#[trigger] words(s)[k][m]),
        s.len() > 0 && !is_white_space(s.last()) ==> words(s).len() > 0 && words(s).last().len() > 0
            && words(s).last().last() == s.last(),
    decreases s.len(),
{
    if s.len() > 0 {
        let t = s.drop_last();
        let c = s.last();
        let prev = words(t);
        lemma_words_cover(t);
        if is_white_space(c) {
        } else if s.len() > 1 && !is_white_space(s[s.len() - 2]) {
            assert(t.last() == s[s.len() - 2]);
            let w = prev.last();
            let upd = prev.update(prev.len() - 1, w.push(c));
            assert(upd.drop_last() =~= prev.drop_last());
            assert(joined(prev) == joined(prev.drop_last()) + w);
            assert(joined(upd) == joined(prev.drop_last()) + w.push(c));
            assert(joined(prev.drop_last()) + w.push(c) =~= (joined(prev.drop_last()) + w).push(c));
            assert forall|k: int| 0 <= k < upd.len() implies (#[trigger] upd[k]).len() > 0
                && forall|m: int| 0 <= m < upd[k].len() ==> !is_white_space(#[trigger] upd[k][m]) by {
                if k == upd.len() - 1 {
                    assert(upd[k] == w.push(c));
                    assert forall|m: int| 0 <= m < upd[k].len() implies !is_white_space(
                        #[trigger] upd[k][m],
                    ) by {
                        if m < w.len() {
                            assert(upd[k][m] == prev[prev.len() - 1][m]);
                        }
                    }
                } else {
                    assert(upd[k] == prev[k]);
                }
            }
        } else {
            let ext = prev.push(seq![c]);
            assert(ext.drop_last() =~= prev);
            assert(joined(ext) == joined(prev) + seq![c]);
            assert(joined(prev) + seq![c] =~= joined(prev).push(c));
            assert forall|k: int| 0 <= k < ext.len() implies (#[trigger] ext[k]).len() > 0
                && forall|m: int| 0 <= m < ext[k].len() ==> !is_white_space(#[trigger] ext[k][m]) by {
                if k < prev.len() {
                    assert(ext[k] == prev[k]);
                }
            }
        }
    }
}

} // verus!
