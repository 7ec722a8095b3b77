//! Character-level string helpers with exact specifications.
//!
//! Everything here works on the `Seq<char>` view of strings: whitespace is the
//! Unicode `White_Space` set that `char::is_whitespace` uses, and string order
//! is lexicographic by code point (the order of `str` in Rust, since UTF-8
//! preserves code point order byte-wise).

use vstd::prelude::*;

verus! {

// ---------------------------------------------------------------------------
// Whitespace
// ---------------------------------------------------------------------------

/// The Unicode `White_Space` code points (what `char::is_whitespace` accepts).
pub open spec fn is_ws(c: char) -> bool {
    let u = c as int;
    ||| 0x09 <= u <= 0x0d
    ||| u == 0x20
    ||| u == 0x85
    ||| u == 0xa0
    ||| u == 0x1680
    ||| 0x2000 <= u <= 0x200a
    ||| u == 0x2028
    ||| u == 0x2029
    ||| u == 0x202f
    ||| u == 0x205f
    ||| u == 0x3000
}

/// Executable whitespace test.
pub fn char_is_ws(c: char) -> (b: bool)
    ensures
        b == is_ws(c),
{
    let u = c as u32;
    (0x09 <= u && u <= 0x0d) || u == 0x20 || u == 0x85 || u == 0xa0 || u == 0x1680 || (0x2000
        <= u && u <= 0x200a) || u == 0x2028 || u == 0x2029 || u == 0x202f || u == 0x205f || u
        == 0x3000
}

/// Number of leading whitespace characters.
pub open spec fn lead_ws(s: Seq<char>) -> nat
    decreases s.len(),
{
    if s.len() > 0 && is_ws(s[0]) {
        1 + lead_ws(s.drop_first())
    } else {
        0
    }
}

/// Number of trailing whitespace characters.
pub open spec fn trail_ws(s: Seq<char>) -> nat
    decreases s.len(),
{
    if s.len() > 0 && is_ws(s.last()) {
        1 + trail_ws(s.drop_last())
    } else {
        0
    }
}

/// `s` without leading whitespace (`str::trim_start`).
pub open spec fn trim_start_spec(s: Seq<char>) -> Seq<char> {
    s.skip(lead_ws(s) as int)
}

/// `s` without leading and trailing whitespace (`str::trim`).
pub open spec fn trim_spec(s: Seq<char>) -> Seq<char> {
    let t = trim_start_spec(s);
    t.take(t.len() - trail_ws(t))
}

pub proof fn lemma_lead_ws(s: Seq<char>)
    ensures
        lead_ws(s) <= s.len(),
        forall|i: int| 0 <= i < lead_ws(s) ==> is_ws(#[trigger] s[i]),
        lead_ws(s) < s.len() ==> !is_ws(s[lead_ws(s) as int]),
    decreases s.len(),
{
    if s.len() > 0 && is_ws(s[0]) {
        lemma_lead_ws(s.drop_first());
        assert forall|i: int| 0 <= i < lead_ws(s) implies is_ws(#[trigger] s[i]) by {
            if i > 0 {
                assert(s[i] == s.drop_first()[i - 1]);
            }
        }
    }
}

pub proof fn lemma_trail_ws(s: Seq<char>)
    ensures
        trail_ws(s) <= s.len(),
        forall|i: int| s.len() - trail_ws(s) <= i < s.len() ==> is_ws(#[trigger] s[i]),
        trail_ws(s) < s.len() ==> !is_ws(s[s.len() - trail_ws(s) - 1]),
    decreases s.len(),
{
    if s.len() > 0 && is_ws(s.last()) {
        lemma_trail_ws(s.drop_last());
        assert forall|i: int| s.len() - trail_ws(s) <= i < s.len() implies is_ws(#[trigger] s[i]) by {
            if i < s.len() - 1 {
                assert(s[i] == s.drop_last()[i]);
            }
        }
    }
}

/// A whitespace-prefix characterisation: if the first `k` chars are whitespace and
/// char `k` is not (or `k` is the end), then `lead_ws(s) == k`.
pub proof fn lemma_lead_ws_unique(s: Seq<char>, k: int)
    requires
        0 <= k <= s.len(),
        forall|i: int| 0 <= i < k ==> is_ws(#[trigger] s[i]),
        k < s.len() ==> !is_ws(s[k]),
    ensures
        lead_ws(s) == k,
    decreases s.len(),
{
    if k > 0 {
        assert(is_ws(s[0]));
        let t = s.drop_first();
        assert forall|i: int| 0 <= i < k - 1 implies is_ws(#[trigger] t[i]) by {
            assert(t[i] == s[i + 1]);
        }
        if k - 1 < t.len() {
            assert(t[k - 1] == s[k]);
        }
        lemma_lead_ws_unique(t, k - 1);
    }
}

pub proof fn lemma_trail_ws_unique(s: Seq<char>, k: int)
    requires
        0 <= k <= s.len(),
        forall|i: int| s.len() - k <= i < s.len() ==> is_ws(#[trigger] s[i]),
        k < s.len() ==> !is_ws(s[s.len() - k - 1]),
    ensures
        trail_ws(s) == k,
    decreases s.len(),
{
    if k > 0 {
        assert(is_ws(s[s.len() - 1]));
        let t = s.drop_last();
        assert forall|i: int| t.len() - (k - 1) <= i < t.len() implies is_ws(#[trigger] t[i]) by {
            assert(t[i] == s[i]);
        }
        if k - 1 < t.len() {
            assert(t[t.len() - (k - 1) - 1] == s[s.len() - k - 1]);
        }
        lemma_trail_ws_unique(t, k - 1);
    }
}

/// Trimming twice is trimming once.
pub proof fn lemma_trim_idempotent(s: Seq<char>)
    ensures
        trim_spec(trim_spec(s)) == trim_spec(s),
{
    let u = trim_start_spec(s);
    let t = trim_spec(s);
    lemma_lead_ws(s);
    lemma_trail_ws(u);
    if t.len() == 0 {
        assert(lead_ws(t) == 0);
        assert(trim_start_spec(t) =~= t);
        assert(trail_ws(t) == 0);
        assert(trim_spec(t) =~= t);
    } else {
        assert(t[0] == u[0]);
        assert(u[0] == s[lead_ws(s) as int]);
        lemma_lead_ws_unique(t, 0);
        assert(trim_start_spec(t) =~= t);
        assert(t[t.len() - 1] == u[u.len() - trail_ws(u) - 1]);
        lemma_trail_ws_unique(t, 0);
        assert(trim_spec(t) =~= t);
    }
}

// ---------------------------------------------------------------------------
// Building strings
// ---------------------------------------------------------------------------

/// Appends one character (`String::push`).
#[verifier::external_body]
pub fn push_char(s: &mut String, c: char)
    ensures
        final(s)@ == old(s)@.push(c),
{
    s.push(c);
}

/// Copies the characters of `s` into a vector.
pub fn chars_of(s: &str) -> (v: Vec<char>)
    ensures
        v@ == s@,
{
    let mut v: Vec<char> = Vec::new();
    for c in it: s.chars()
        invariant
            v@ == it.seq().take(it.index() as int),
    {
        v.push(c);
    }
    v
}

/// Appends a slice of characters to `s`.
pub fn push_chars(s: &mut String, v: &[char])
    ensures
        final(s)@ == old(s)@ + v@,
{
    let mut i: usize = 0;
    while i < v.len()
        invariant
            i <= v.len(),
            s@ == old(s)@ + v@.take(i as int),
        decreases v.len() - i,
    {
        push_char(s, v[i]);
        assert(v@.take(i as int + 1) == v@.take(i as int).push(v@[i as int]));
        i += 1;
    }
    assert(v@.take(v.len() as int) == v@);
}

/// Builds a `String` from characters.
pub fn string_of(v: &[char]) -> (s: String)
    ensures
        s@ == v@,
{
    let mut s = String::new();
    push_chars(&mut s, v);
    s
}

/// Appends `t` to `s`.
pub fn push_str(s: &mut String, t: &str)
    ensures
        final(s)@ == old(s)@ + t@,
{
    s.append(t);
}

/// Appends a `String` to `s`.
pub fn push_string(s: &mut String, t: &String)
    ensures
        final(s)@ == old(s)@ + t@,
{
    s.append(t.as_str());
}

/// An owned copy of `t`.
pub fn owned(t: &str) -> (s: String)
    ensures
        s@ == t@,
{
    t.to_string()
}

/// `a`, then `b`, then `c`, as one string (messages that quote a name).
pub fn concat3(a: &str, b: &str, c: &str) -> (s: String)
    ensures
        s@ == a@ + b@ + c@,
{
    let mut s = owned(a);
    push_str(&mut s, b);
    push_str(&mut s, c);
    s
}

/// A copy of `t`.
pub fn copy_string(t: &String) -> (s: String)
    ensures
        s@ == t@,
{
    t.clone()
}

/// A copy of an optional string.
pub fn copy_opt(t: &Option<String>) -> (s: Option<String>)
    ensures
        opt_view(s) == opt_view(*t),
{
    match t {
        Some(x) => Some(x.clone()),
        None => None,
    }
}

/// The view of an optional string.
pub open spec fn opt_view(o: Option<String>) -> Option<Seq<char>> {
    match o {
        Some(s) => Some(s@),
        None => None,
    }
}

/// The view of a vector of strings.
pub open spec fn strs_view(v: Seq<String>) -> Seq<Seq<char>> {
    v.map_values(|s: String| s@)
}

// ---------------------------------------------------------------------------
// Comparison
// ---------------------------------------------------------------------------

/// Character sequence equality.
pub fn chars_eq(a: &[char], b: &[char]) -> (r: bool)
    ensures
        r == (a@ == b@),
{
    if a.len() != b.len() {
        return false;
    }
    let mut i: usize = 0;
    while i < a.len()
        invariant
            i <= a.len(),
            a.len() == b.len(),
            forall|j: int| 0 <= j < i ==> a@[j] == b@[j],
        decreases a.len() - i,
    {
        if a[i] != b[i] {
            return false;
        }
        i += 1;
    }
    assert(a@ =~= b@);
    true
}

/// String equality on views.
pub fn str_eq(a: &str, b: &str) -> (r: bool)
    ensures
        r == (a@ == b@),
{
    let va = chars_of(a);
    let vb = chars_of(b);
    chars_eq(va.as_slice(), vb.as_slice())
}

/// Lexicographic order by code point (the order of `str`).
pub open spec fn seq_lt(a: Seq<char>, b: Seq<char>) -> bool
    decreases a.len(),
{
    if a.len() == 0 {
        b.len() > 0
    } else if b.len() == 0 {
        false
    } else if a[0] != b[0] {
        (a[0] as int) < (b[0] as int)
    } else {
        seq_lt(a.drop_first(), b.drop_first())
    }
}

pub open spec fn seq_le(a: Seq<char>, b: Seq<char>) -> bool {
    seq_lt(a, b) || a == b
}

pub proof fn lemma_seq_lt_irrefl(a: Seq<char>)
    ensures
        !seq_lt(a, a),
    decreases a.len(),
{
    if a.len() > 0 {
        lemma_seq_lt_irrefl(a.drop_first());
    }
}

pub proof fn lemma_seq_lt_trans(a: Seq<char>, b: Seq<char>, c: Seq<char>)
    requires
        seq_lt(a, b),
        seq_lt(b, c),
    ensures
        seq_lt(a, c),
    decreases a.len(),
{
    if a.len() > 0 && b.len() > 0 && c.len() > 0 {
        if a[0] == b[0] && b[0] == c[0] {
            lemma_seq_lt_trans(a.drop_first(), b.drop_first(), c.drop_first());
        }
    }
}

pub proof fn lemma_seq_lt_total(a: Seq<char>, b: Seq<char>)
    ensures
        seq_lt(a, b) || seq_lt(b, a) || a == b,
    decreases a.len(),
{
    if a.len() > 0 && b.len() > 0 {
        if a[0] == b[0] {
            lemma_seq_lt_total(a.drop_first(), b.drop_first());
            if a.drop_first() == b.drop_first() {
                assert(a =~= seq![a[0]] + a.drop_first());
                assert(b =~= seq![b[0]] + b.drop_first());
            }
        } else {
            assert((a[0] as int) != (b[0] as int));
        }
    } else if a.len() == 0 && b.len() == 0 {
        assert(a =~= b);
    }
}

pub proof fn lemma_seq_lt_asym(a: Seq<char>, b: Seq<char>)
    requires
        seq_lt(a, b),
    ensures
        !seq_lt(b, a),
        a != b,
{
    if seq_lt(b, a) {
        lemma_seq_lt_trans(a, b, a);
        lemma_seq_lt_irrefl(a);
    }
    if a == b {
        lemma_seq_lt_irrefl(a);
    }
}

/// Three-way lexicographic comparison: -1, 0 or 1.
pub fn compare_chars(a: &[char], b: &[char]) -> (r: i8)
    ensures
        r == -1 <==> seq_lt(a@, b@),
        r == 0 <==> a@ == b@,
        r == 1 <==> seq_lt(b@, a@),
        r == -1 || r == 0 || r == 1,
{
    let mut i: usize = 0;
    while i < a.len() && i < b.len()
        invariant
            i <= a.len(),
            i <= b.len(),
            forall|j: int| 0 <= j < i ==> a@[j] == b@[j],
        decreases a.len() - i,
    {
        if a[i] != b[i] {
            proof {
                lemma_seq_lt_common_prefix(a@, b@, i as int);
            }
            if a[i] < b[i] {
                return -1;
            } else {
                return 1;
            }
        }
        i += 1;
    }
    proof {
        lemma_seq_lt_common_prefix(a@, b@, i as int);
        if a.len() == b.len() {
            assert(a@ =~= b@);
        }
        lemma_seq_lt_irrefl(a@);
    }
    if a.len() < b.len() {
        -1
    } else if a.len() > b.len() {
        1
    } else {
        0
    }
}

/// Comparing after a shared prefix of length `k`.
pub proof fn lemma_seq_lt_common_prefix(a: Seq<char>, b: Seq<char>, k: int)
    requires
        0 <= k <= a.len(),
        k <= b.len(),
        forall|j: int| 0 <= j < k ==> a[j] == b[j],
    ensures
        seq_lt(a, b) == seq_lt(a.skip(k), b.skip(k)),
        seq_lt(b, a) == seq_lt(b.skip(k), a.skip(k)),
    decreases k,
{
    if k > 0 {
        assert(a[0] == b[0]);
        lemma_seq_lt_common_prefix(a.drop_first(), b.drop_first(), k - 1);
        assert(a.drop_first().skip(k - 1) =~= a.skip(k));
        assert(b.drop_first().skip(k - 1) =~= b.skip(k));
    } else {
        assert(a.skip(0) =~= a);
        assert(b.skip(0) =~= b);
    }
}

/// Three-way comparison of strings by view.
pub fn compare_str(a: &str, b: &str) -> (r: i8)
    ensures
        r == -1 <==> seq_lt(a@, b@),
        r == 0 <==> a@ == b@,
        r == 1 <==> seq_lt(b@, a@),
        r == -1 || r == 0 || r == 1,
{
    let va = chars_of(a);
    let vb = chars_of(b);
    compare_chars(va.as_slice(), vb.as_slice())
}

// ---------------------------------------------------------------------------
// Searching
// ---------------------------------------------------------------------------

/// Whether `c` occurs in `s`.
pub fn chars_contain(s: &[char], c: char) -> (r: bool)
    ensures
        r == s@.contains(c),
{
    let mut i: usize = 0;
    while i < s.len()
        invariant
            i <= s.len(),
            forall|j: int| 0 <= j < i ==> s@[j] != c,
        decreases s.len() - i,
    {
        if s[i] == c {
            return true;
        }
        i += 1;
    }
    false
}

/// Whether `p` occurs in `s` at offset `at`.
pub open spec fn occurs_at(s: Seq<char>, p: Seq<char>, at: int) -> bool {
    0 <= at && at + p.len() <= s.len() && s.subrange(at, at + p.len()) == p
}

/// Checks `occurs_at`.
pub fn chars_occur_at(s: &[char], p: &[char], at: usize) -> (r: bool)
    ensures
        r == occurs_at(s@, p@, at as int),
{
    if at > s.len() || p.len() > s.len() - at {
        return false;
    }
    let mut j: usize = 0;
    while j < p.len()
        invariant
            j <= p.len(),
            at + p.len() <= s.len(),
            forall|k: int| 0 <= k < j ==> s@[at + k] == p@[k],
        decreases p.len() - j,
    {
        if s[at + j] != p[j] {
            assert(s@.subrange(at as int, at + p.len())[j as int] != p@[j as int]);
            return false;
        }
        j += 1;
    }
    assert(s@.subrange(at as int, at + p.len()) =~= p@);
    true
}

/// First offset at or after `from` where `p` occurs (`str::find` on a suffix).
pub fn find_chars(s: &[char], p: &[char], from: usize) -> (r: Option<usize>)
    ensures
        match r {
            Some(i) => from <= i && occurs_at(s@, p@, i as int) && forall|j: int|
                from <= j < i ==> !occurs_at(s@, p@, j),
            None => forall|j: int| from <= j ==> !occurs_at(s@, p@, j),
        },
{
    let mut i: usize = from;
    while i <= s.len()
        invariant
            from <= i,
            forall|j: int| from <= j < i ==> !occurs_at(s@, p@, j),
        decreases s.len() + 1 - i,
    {
        if chars_occur_at(s, p, i) {
            return Some(i);
        }
        if i == s.len() {
            return None;
        }
        i += 1;
    }
    None
}

/// The first offset at or after `from` where `p` occurs.
pub open spec fn find_from(s: Seq<char>, p: Seq<char>, from: int) -> Option<int>
    decreases s.len() + 1 - from,
{
    if from < 0 || from > s.len() {
        None
    } else if occurs_at(s, p, from) {
        Some(from)
    } else {
        find_from(s, p, from + 1)
    }
}

/// A first occurrence found by search is the one `find_from` names.
pub proof fn lemma_find_from_first(s: Seq<char>, p: Seq<char>, from: int, i: int)
    requires
        0 <= from <= i,
        occurs_at(s, p, i),
        forall|j: int| from <= j < i ==> !occurs_at(s, p, j),
    ensures
        find_from(s, p, from) == Some(i),
    decreases i - from,
{
    if from < i {
        lemma_find_from_first(s, p, from + 1, i);
    }
}

/// No occurrence at or after `from`: `find_from` finds none.
pub proof fn lemma_find_from_none(s: Seq<char>, p: Seq<char>, from: int)
    requires
        0 <= from,
        forall|j: int| from <= j ==> !occurs_at(s, p, j),
    ensures
        find_from(s, p, from) is None,
    decreases s.len() + 1 - from,
{
    if from <= s.len() {
        lemma_find_from_none(s, p, from + 1);
    }
}

/// `find_from`'s result is an occurrence with none before it.
pub proof fn lemma_find_from_some(s: Seq<char>, p: Seq<char>, from: int)
    requires
        find_from(s, p, from) is Some,
    ensures
        from <= find_from(s, p, from)->0,
        occurs_at(s, p, find_from(s, p, from)->0),
        forall|j: int| from <= j < find_from(s, p, from)->0 ==> !occurs_at(s, p, j),
    decreases s.len() + 1 - from,
{
    if !occurs_at(s, p, from) {
        lemma_find_from_some(s, p, from + 1);
    }
}

/// `find_chars` computes `find_from`.
pub fn find_first(s: &[char], p: &[char], from: usize) -> (r: Option<usize>)
    ensures
        match r {
            Some(i) => find_from(s@, p@, from as int) == Some(i as int),
            None => find_from(s@, p@, from as int) is None,
        },
{
    let r = find_chars(s, p, from);
    proof {
        match r {
            Some(i) => lemma_find_from_first(s@, p@, from as int, i as int),
            None => lemma_find_from_none(s@, p@, from as int),
        }
    }
    r
}

/// Whether `s` starts with `p`.
pub fn chars_start_with(s: &[char], p: &[char]) -> (r: bool)
    ensures
        r == occurs_at(s@, p@, 0),
{
    chars_occur_at(s, p, 0)
}

/// Whether `s` ends with `c`.
pub open spec fn ends_with_char(s: Seq<char>, c: char) -> bool {
    s.len() > 0 && s.last() == c
}

// ---------------------------------------------------------------------------
// Trimming
// ---------------------------------------------------------------------------

/// `str::trim` on characters.
pub fn trim_chars(s: &[char]) -> (r: Vec<char>)
    ensures
        r@ == trim_spec(s@),
{
    let mut a: usize = 0;
    while a < s.len() && char_is_ws(s[a])
        invariant
            a <= s.len(),
            forall|i: int| 0 <= i < a ==> is_ws(#[trigger] s@[i]),
        decreases s.len() - a,
    {
        a += 1;
    }
    proof {
        lemma_lead_ws_unique(s@, a as int);
    }
    let mut b: usize = s.len();
    while b > a && char_is_ws(s[b - 1])
        invariant
            a <= b <= s.len(),
            forall|i: int| b <= i < s.len() ==> is_ws(#[trigger] s@[i]),
        decreases b,
    {
        b -= 1;
    }
    let ghost t = s@.skip(a as int);
    proof {
        assert(trim_start_spec(s@) == t);
        let k = s.len() - b;
        assert forall|i: int| t.len() - k <= i < t.len() implies is_ws(#[trigger] t[i]) by {
            assert(t[i] == s@[i + a]);
        }
        if k < t.len() {
            assert(t[t.len() - k - 1] == s@[b - 1]);
        }
        lemma_trail_ws_unique(t, k as int);
    }
    let r = slice_range(s, a, b);
    assert(r@ =~= t.take(t.len() - trail_ws(t)));
    r
}

/// `str::trim`.
pub fn trim_str(s: &str) -> (r: String)
    ensures
        r@ == trim_spec(s@),
{
    let v = chars_of(s);
    let t = trim_chars(v.as_slice());
    string_of(t.as_slice())
}

/// Copies `s[from..to]`.
pub fn slice_range(s: &[char], from: usize, to: usize) -> (r: Vec<char>)
    requires
        from <= to <= s.len(),
    ensures
        r@ == s@.subrange(from as int, to as int),
{
    let mut r: Vec<char> = Vec::new();
    let mut i = from;
    while i < to
        invariant
            from <= i <= to <= s.len(),
            r@ == s@.subrange(from as int, i as int),
        decreases to - i,
    {
        r.push(s[i]);
        i += 1;
    }
    r
}

// ---------------------------------------------------------------------------
// Numbers and booleans
// ---------------------------------------------------------------------------

/// The decimal digit character for `d < 10`.
pub open spec fn digit_char(d: nat) -> char {
    ((48 + d) as u32) as char
}

/// Decimal rendering of a natural number (no sign, no leading zeros).
pub open spec fn decimal(n: nat) -> Seq<char>
    decreases n,
{
    if n < 10 {
        seq![digit_char(n)]
    } else {
        decimal(n / 10).push(digit_char(n % 10))
    }
}

/// Decimal rendering of an integer (leading `-` for negatives).
pub open spec fn decimal_int(n: int) -> Seq<char> {
    if n < 0 {
        seq!['-'] + decimal((-n) as nat)
    } else {
        decimal(n as nat)
    }
}

/// The character for a digit.
pub fn digit(d: u64) -> (c: char)
    requires
        d < 10,
    ensures
        c == digit_char(d as nat),
{
    let c = match d {
        0 => '0',
        1 => '1',
        2 => '2',
        3 => '3',
        4 => '4',
        5 => '5',
        6 => '6',
        7 => '7',
        8 => '8',
        _ => '9',
    };
    c
}

/// Appends the decimal rendering of `n`.
pub fn push_decimal(s: &mut String, n: u64)
    ensures
        final(s)@ == old(s)@ + decimal(n as nat),
    decreases n,
{
    if n < 10 {
        push_char(s, digit(n));
        assert(decimal(n as nat) =~= seq![digit_char(n as nat)]);
    } else {
        push_decimal(s, n / 10);
        push_char(s, digit(n % 10));
        assert(s@ =~= old(s)@ + decimal(n as nat));
    }
}

/// Appends the decimal rendering of a signed `n`.
pub fn push_decimal_i64(s: &mut String, n: i64)
    ensures
        final(s)@ == old(s)@ + decimal_int(n as int),
{
    if n < 0 {
        push_char(s, '-');
        let m: u64 = if n == i64::MIN {
            9223372036854775808u64
        } else {
            (-n) as u64
        };
        assert(m as int == -(n as int));
        push_decimal(s, m);
        assert(s@ =~= old(s)@ + decimal_int(n as int));
    } else {
        push_decimal(s, n as u64);
    }
}

/// `"true"` or `"false"`.
pub open spec fn bool_text(b: bool) -> Seq<char> {
    if b {
        seq!['t', 'r', 'u', 'e']
    } else {
        seq!['f', 'a', 'l', 's', 'e']
    }
}

/// Appends `true`/`false`.
pub fn push_bool(s: &mut String, b: bool)
    ensures
        final(s)@ == old(s)@ + bool_text(b),
{
    if b {
        push_char(s, 't');
        push_char(s, 'r');
        push_char(s, 'u');
        push_char(s, 'e');
    } else {
        push_char(s, 'f');
        push_char(s, 'a');
        push_char(s, 'l');
        push_char(s, 's');
        push_char(s, 'e');
    }
    assert(s@ =~= old(s)@ + bool_text(b));
}

// ---------------------------------------------------------------------------
// Concatenation over sequences
// ---------------------------------------------------------------------------

/// `f(s[0]) + f(s[1]) + ...`.
pub open spec fn concat_map<T>(s: Seq<T>, f: spec_fn(T) -> Seq<char>) -> Seq<char>
    decreases s.len(),
{
    if s.len() == 0 {
        Seq::empty()
    } else {
        concat_map(s.drop_last(), f) + f(s.last())
    }
}

/// One more element of a prefix appends its image.
pub proof fn lemma_concat_map_take<T>(s: Seq<T>, f: spec_fn(T) -> Seq<char>, i: int)
    requires
        0 <= i < s.len(),
    ensures
        concat_map(s.take(i + 1), f) == concat_map(s.take(i), f) + f(s[i]),
{
    assert(s.take(i + 1).drop_last() =~= s.take(i));
}

/// The whole sequence is its own full prefix.
pub proof fn lemma_take_full<T>(s: Seq<T>)
    ensures
        s.take(s.len() as int) == s,
{
    assert(s.take(s.len() as int) =~= s);
}

/// Items joined with a separator (`[..].join(sep)`).
pub open spec fn join_sep(items: Seq<Seq<char>>, sep: Seq<char>) -> Seq<char>
    decreases items.len(),
{
    if items.len() == 0 {
        Seq::empty()
    } else if items.len() == 1 {
        items[0]
    } else {
        join_sep(items.drop_last(), sep) + sep + items.last()
    }
}

/// One more item of a prefix appends the separator (unless first) and the item.
pub proof fn lemma_join_sep_take(items: Seq<Seq<char>>, sep: Seq<char>, i: int)
    requires
        0 <= i < items.len(),
    ensures
        join_sep(items.take(i + 1), sep) == if i == 0 {
            items[0]
        } else {
            join_sep(items.take(i), sep) + sep + items[i]
        },
{
    assert(items.take(i + 1).drop_last() =~= items.take(i));
    if i == 0 {
        assert(items.take(1).len() == 1);
    }
}

} // verus!
