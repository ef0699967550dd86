use vstd::prelude::*;
use vstd::string::StrSliceExecFns;
use vstd::string::StringExecFns;

verus! {

broadcast use vstd::string::group_string_axioms;

// ---------------------------------------------------------------------------
// Specifications over character sequences
// ---------------------------------------------------------------------------

/// Index of the first `c` in `s`, or the length of `s` when `s` has none.
pub open spec fn find_char(s: Seq<char>, c: char) -> nat
    decreases s.len(),
{
    if s.len() == 0 {
        0
    } else if s[0] == c {
        0
    } else {
        1 + find_char(s.drop_first(), c)
    }
}

/// What precedes the first `c` in `s` (all of `s` when it has none).
pub open spec fn before_char(s: Seq<char>, c: char) -> Seq<char> {
    s.take(find_char(s, c) as int)
}

/// What follows the first `c` in `s`.
pub open spec fn after_char(s: Seq<char>, c: char) -> Seq<char> {
    s.skip(find_char(s, c) + 1int)
}

/// The `n`-th piece of `s` when it is split at every '.', counting from 0.
pub open spec fn segment(s: Seq<char>, n: nat) -> Option<Seq<char>>
    decreases n,
{
    if n == 0 {
        Some(before_char(s, '.'))
    } else if find_char(s, '.') >= s.len() {
        None
    } else {
        segment(after_char(s, '.'), (n - 1) as nat)
    }
}

/// Whether `t` occurs in `s` as a contiguous piece.
pub open spec fn contains_seq(s: Seq<char>, t: Seq<char>) -> bool {
    exists|i: int| 0 <= i && i + t.len() <= s.len() && #[trigger] s.subrange(i, i + t.len()) == t
}

/// Index of the first occurrence of `t` in `s` (the length of `s` when there is none).
pub open spec fn find_seq(s: Seq<char>, t: Seq<char>) -> nat
    decreases s.len(),
{
    if t.is_prefix_of(s) {
        0
    } else if s.len() == 0 {
        0
    } else {
        1 + find_seq(s.drop_first(), t)
    }
}

/// Lexicographic order on character sequences, comparing characters by code
/// point: the order of `str` in Rust.
pub open spec fn lex_lt(a: Seq<char>, b: Seq<char>) -> bool
    decreases a.len(),
{
    if b.len() == 0 {
        false
    } else if a.len() == 0 {
        true
    } else if a[0] != b[0] {
        a[0] < b[0]
    } else {
        lex_lt(a.drop_first(), b.drop_first())
    }
}

/// What one character of a key becomes once its brackets are rewritten:
/// '(' becomes '.', ')' disappears.
pub open spec fn normalized_char(c: char) -> Seq<char> {
    if c == '(' {
        seq!['.']
    } else if c == ')' {
        Seq::empty()
    } else {
        seq![c]
    }
}

/// A key with every '(' replaced by '.' and every ')' removed.
pub open spec fn normalized(s: Seq<char>) -> Seq<char>
    decreases s.len(),
{
    if s.len() == 0 {
        Seq::empty()
    } else {
        normalized(s.drop_last()) + normalized_char(s.last())
    }
}

/// Whether `c` is one of the decimal digits '0' to '9'.
pub open spec fn is_digit(c: char) -> bool {
    48 <= (c as int) <= 57
}

/// The decimal digit for `d`, which is below ten.
pub open spec fn digit_char(d: nat) -> char {
    (d + 48) as char
}

/// The number that a non-empty run of decimal digits stands for.
pub open spec fn digits_value(s: Seq<char>) -> nat
    decreases s.len(),
{
    if s.len() == 0 {
        0
    } else {
        digits_value(s.drop_last()) * 10 + ((s.last() as int) - 48) as nat
    }
}

/// The digits that follow an optional leading '+'.
pub open spec fn unsigned_digits(s: Seq<char>) -> Seq<char> {
    if s.len() > 0 && s[0] == '+' {
        s.drop_first()
    } else {
        s
    }
}

/// The value that Rust's parsing of an unsigned integer reads from `s`,
/// before the range of the integer type is checked: an optional '+'
/// followed by at least one decimal digit.
pub open spec fn decimal_value(s: Seq<char>) -> Option<nat> {
    let d = unsigned_digits(s);
    if d.len() > 0 && (forall|i: int| 0 <= i < d.len() ==> is_digit(#[trigger] d[i])) {
        Some(digits_value(d))
    } else {
        None
    }
}

/// The value of `s` as an unsigned integer of at most `max`, as Rust parses it.
pub open spec fn parse_unsigned(s: Seq<char>, max: nat) -> Option<nat> {
    match decimal_value(s) {
        Some(n) => if n <= max {
            Some(n)
        } else {
            None
        },
        None => None,
    }
}

/// The decimal text of `n`, without leading zeros: how Rust displays it.
pub open spec fn decimal_text(n: nat) -> Seq<char>
    decreases n,
{
    if n < 10 {
        seq![digit_char(n)]
    } else {
        decimal_text(n / 10).push(digit_char(n % 10))
    }
}

// ---------------------------------------------------------------------------
// Lemmas
// ---------------------------------------------------------------------------

/// The first occurrence of `c`: none before it, and `c` at it when it is
/// inside `s`.
pub proof fn lemma_find_char(s: Seq<char>, c: char)
    ensures
        find_char(s, c) <= s.len(),
        forall|j: int| 0 <= j < find_char(s, c) ==> s[j] != c,
        find_char(s, c) < s.len() ==> s[find_char(s, c) as int] == c,
        s.contains(c) <==> find_char(s, c) < s.len(),
    decreases s.len(),
{
    if s.len() > 0 && s[0] != c {
        let t = s.drop_first();
        lemma_find_char(t, c);
        assert forall|j: int| 0 <= j < find_char(s, c) implies s[j] != c by {
            if j > 0 {
                assert(s[j] == t[j - 1]);
            }
        }
        if s.contains(c) {
            let k = choose|k: int| 0 <= k < s.len() && s[k] == c;
            assert(t[k - 1] == c);
        }
        if find_char(s, c) < s.len() {
            assert(s[find_char(s, c) as int] == t[find_char(t, c) as int]);
        }
    }
}

/// An index before which `c` does not occur and at which it does (or the
/// end) is the first index of `c`.
pub proof fn lemma_find_char_at(s: Seq<char>, c: char, i: int)
    requires
        0 <= i <= s.len(),
        forall|j: int| 0 <= j < i ==> s[j] != c,
        i == s.len() || s[i] == c,
    ensures
        find_char(s, c) == i,
    decreases s.len(),
{
    if s.len() > 0 && i > 0 {
        let t = s.drop_first();
        assert forall|j: int| 0 <= j < i - 1 implies t[j] != c by {
            assert(t[j] == s[j + 1]);
        }
        if i < s.len() {
            assert(t[i - 1] == s[i]);
        }
        lemma_find_char_at(t, c, i - 1);
    }
}

/// No string comes before itself.
pub proof fn lemma_lex_irreflexive(a: Seq<char>)
    ensures
        !lex_lt(a, a),
    decreases a.len(),
{
    if a.len() > 0 {
        lemma_lex_irreflexive(a.drop_first());
    }
}

/// Of two strings, at most one comes before the other.
pub proof fn lemma_lex_asymmetric(a: Seq<char>, b: Seq<char>)
    ensures
        lex_lt(a, b) ==> !lex_lt(b, a),
    decreases a.len(),
{
    if a.len() > 0 && b.len() > 0 && a[0] == b[0] {
        lemma_lex_asymmetric(a.drop_first(), b.drop_first());
    }
}

/// The order of strings is transitive.
pub proof fn lemma_lex_transitive(a: Seq<char>, b: Seq<char>, c: Seq<char>)
    ensures
        lex_lt(a, b) && lex_lt(b, c) ==> lex_lt(a, c),
    decreases a.len(),
{
    if a.len() > 0 && b.len() > 0 && c.len() > 0 {
        lemma_lex_transitive(a.drop_first(), b.drop_first(), c.drop_first());
    }
}

/// Of two distinct strings, one comes before the other.
pub proof fn lemma_lex_total(a: Seq<char>, b: Seq<char>)
    ensures
        a != b ==> lex_lt(a, b) || lex_lt(b, a),
    decreases a.len(),
{
    if a.len() > 0 && b.len() > 0 {
        lemma_lex_total(a.drop_first(), b.drop_first());
        if a[0] == b[0] && a != b {
            assert(a.drop_first() != b.drop_first()) by {
                if a.drop_first() == b.drop_first() {
                    assert(a =~= seq![a[0]] + a.drop_first());
                    assert(b =~= seq![b[0]] + b.drop_first());
                }
            }
        }
        if a[0] != b[0] {
            assert((a[0] as int) != (b[0] as int));
        }
    } else if a.len() == 0 && b.len() == 0 {
        assert(a =~= b);
    }
}

/// Rewriting a prefix of a key and then its next character is rewriting the
/// longer prefix.
pub proof fn lemma_normalized_take(s: Seq<char>, i: int)
    requires
        0 <= i < s.len(),
    ensures
        normalized(s.take(i + 1)) == normalized(s.take(i)) + normalized_char(s[i]),
{
    assert(s.take(i + 1).drop_last() =~= s.take(i));
}

/// A run of digits is worth at least as much as any of its prefixes.
pub proof fn lemma_digits_value_monotone(s: Seq<char>, i: int)
    requires
        0 <= i <= s.len(),
        forall|j: int| 0 <= j < s.len() ==> is_digit(#[trigger] s[j]),
    ensures
        digits_value(s.take(i)) <= digits_value(s),
    decreases s.len() - i,
{
    if i < s.len() {
        lemma_digits_value_monotone(s, i + 1);
        assert(s.take(i + 1).drop_last() =~= s.take(i));
        assert(is_digit(s[i]));
    } else {
        assert(s.take(i) =~= s);
    }
}

/// The digits of `decimal_text(n)` are decimal digits and stand for `n`.
pub proof fn lemma_decimal_text_digits(n: nat)
    ensures
        decimal_text(n).len() > 0,
        forall|i: int| 0 <= i < decimal_text(n).len() ==> is_digit(#[trigger] decimal_text(n)[i]),
        digits_value(decimal_text(n)) == n,
        decimal_text(n)[0] != '+',
    decreases n,
{
    assert((digit_char(n % 10) as int) == n % 10 + 48);
    if n < 10 {
        assert((digit_char(n) as int) == n + 48);
        let t = decimal_text(n);
        assert(t == seq![digit_char(n)]);
        assert(t.drop_last() =~= Seq::<char>::empty());
        assert(digits_value(t.drop_last()) == 0);
        assert(t.last() == digit_char(n));
        assert(digits_value(t) == n);
    }
    if n >= 10 {
        lemma_decimal_text_digits(n / 10);
        assert(n == (n / 10) * 10 + n % 10) by (nonlinear_arith);
        let t = decimal_text(n);
        assert(t.drop_last() =~= decimal_text(n / 10));
        assert forall|i: int| 0 <= i < t.len() implies is_digit(#[trigger] t[i]) by {
            if i < t.len() - 1 {
                assert(t[i] == decimal_text(n / 10)[i]);
            }
        }
        assert(t[0] == decimal_text(n / 10)[0]);
        assert(t.last() == digit_char(n % 10));
        assert(digits_value(t) == digits_value(t.drop_last()) * 10 + ((t.last() as int) - 48) as nat);
        assert(digits_value(t.drop_last()) == n / 10);
        assert(((t.last() as int) - 48) as nat == n % 10);
        assert(digits_value(t) == (n / 10) * 10 + n % 10);
    }
}

/// Reading back the decimal text of a number gives the number: the text
/// under which a numbered entity is filed names that entity again.
pub proof fn lemma_decimal_round_trip(n: nat)
    ensures
        decimal_value(decimal_text(n)) == Some(n),
{
    lemma_decimal_text_digits(n);
    assert(unsigned_digits(decimal_text(n)) == decimal_text(n));
}

/// A rewritten key holds no bracket.
pub proof fn lemma_normalized_has_no_brackets(s: Seq<char>)
    ensures
        !normalized(s).contains('('),
        !normalized(s).contains(')'),
    decreases s.len(),
{
    if s.len() > 0 {
        lemma_normalized_has_no_brackets(s.drop_last());
        let a = normalized(s.drop_last());
        let b = normalized_char(s.last());
        assert forall|i: int| 0 <= i < (a + b).len() implies (a + b)[i] != '(' && (a + b)[i] != ')' by {
            if i < a.len() {
                assert((a + b)[i] == a[i]);
            } else {
                assert((a + b)[i] == b[i - a.len()]);
            }
        }
    }
}

/// A key without brackets is left as it is.
pub proof fn lemma_normalized_without_brackets(s: Seq<char>)
    requires
        !s.contains('('),
        !s.contains(')'),
    ensures
        normalized(s) == s,
    decreases s.len(),
{
    if s.len() > 0 {
        assert(!s.drop_last().contains('(') && !s.drop_last().contains(')')) by {
            if s.drop_last().contains('(') {
                let i = choose|i: int| 0 <= i < s.drop_last().len() && s.drop_last()[i] == '(';
                assert(s[i] == '(');
            }
            if s.drop_last().contains(')') {
                let i = choose|i: int| 0 <= i < s.drop_last().len() && s.drop_last()[i] == ')';
                assert(s[i] == ')');
            }
        }
        lemma_normalized_without_brackets(s.drop_last());
        assert(s.last() != '(' && s.last() != ')') by {
            assert(s[s.len() - 1] == s.last());
        }
        assert(s.drop_last() + seq![s.last()] =~= s);
    }
}

/// Rewriting a key twice is rewriting it once.
pub proof fn lemma_normalized_idempotent(s: Seq<char>)
    ensures
        normalized(normalized(s)) == normalized(s),
{
    lemma_normalized_has_no_brackets(s);
    lemma_normalized_without_brackets(normalized(s));
}

// ---------------------------------------------------------------------------
// Executable helpers
// ---------------------------------------------------------------------------

/// The characters of `s`, in order.
pub fn chars_of(s: &str) -> (r: Vec<char>)
    ensures
        r@ == s@,
{
    let mut r: Vec<char> = Vec::new();
    for c in it: s.chars()
        invariant
            it.seq() == s@,
            r@ == s@.take(it.index() as int),
    {
        r.push(c);
        proof {
            assert(s@.take(it.index() as int).push(c) =~= s@.take(it.index() + 1));
        }
    }
    assert(r@ =~= s@);
    r
}

/// The characters of `s` from index `from` up to `to`, as a string.
pub fn substring(s: &str, from: usize, to: usize) -> (r: String)
    requires
        from <= to <= s@.len(),
    ensures
        r@ == s@.subrange(from as int, to as int),
{
    s.substring_char(from, to).to_owned()
}

/// `a` followed by `b`.
pub fn concat(a: &str, b: &str) -> (r: String)
    ensures
        r@ == a@ + b@,
{
    let mut r = a.to_owned();
    r.append(b);
    r
}

/// Index of the first `c` in `v`, or its length when it has none.
pub fn find_char_in(v: &Vec<char>, c: char) -> (r: usize)
    ensures
        r == find_char(v@, c),
{
    let mut i: usize = 0;
    while i < v.len() && v[i] != c
        invariant
            i <= v@.len(),
            forall|j: int| 0 <= j < i ==> v@[j] != c,
        decreases v@.len() - i,
    {
        i = i + 1;
    }
    proof {
        lemma_find_char_at(v@, c, i as int);
    }
    i
}

/// Whether `a` and `b` hold the same characters.
pub fn chars_eq(a: &Vec<char>, b: &Vec<char>) -> (r: bool)
    ensures
        r == (a@ == b@),
{
    if a.len() != b.len() {
        return false;
    }
    let mut i: usize = 0;
    while i < a.len()
        invariant
            a@.len() == b@.len(),
            i <= a@.len(),
            forall|j: int| 0 <= j < i ==> a@[j] == b@[j],
        decreases a@.len() - i,
    {
        if a[i] != b[i] {
            return false;
        }
        i = i + 1;
    }
    assert(a@ =~= b@);
    true
}

/// Whether `p` is a prefix of `v`.
pub fn starts_with(v: &Vec<char>, p: &Vec<char>) -> (r: bool)
    ensures
        r == p@.is_prefix_of(v@),
{
    if p.len() > v.len() {
        return false;
    }
    let mut i: usize = 0;
    while i < p.len()
        invariant
            p@.len() <= v@.len(),
            i <= p@.len(),
            forall|j: int| 0 <= j < i ==> p@[j] == v@[j],
        decreases p@.len() - i,
    {
        if p[i] != v[i] {
            assert(v@.subrange(0, p@.len() as int)[i as int] == v@[i as int]);
            return false;
        }
        i = i + 1;
    }
    assert(p@ =~= v@.subrange(0, p@.len() as int));
    true
}

/// Whether `a` comes before `b` in lexicographic order.
pub fn lex_less(a: &Vec<char>, b: &Vec<char>) -> (r: bool)
    ensures
        r == lex_lt(a@, b@),
{
    let mut i: usize = 0;
    assert(a@.skip(0) =~= a@ && b@.skip(0) =~= b@);
    while i < a.len() && i < b.len() && a[i] == b[i]
        invariant
            i <= a@.len(),
            i <= b@.len(),
            lex_lt(a@, b@) == lex_lt(a@.skip(i as int), b@.skip(i as int)),
        decreases a@.len() - i,
    {
        proof {
            assert(a@.skip(i as int).drop_first() =~= a@.skip(i + 1));
            assert(b@.skip(i as int).drop_first() =~= b@.skip(i + 1));
        }
        i = i + 1;
    }
    if i == b.len() {
        false
    } else if i == a.len() {
        true
    } else {
        a[i] < b[i]
    }
}


/// `t` starts the rest of `s` from `j` on exactly when `s` holds `t` at `j`.
pub proof fn lemma_prefix_at(s: Seq<char>, t: Seq<char>, j: int)
    requires
        0 <= j <= s.len(),
    ensures
        t.is_prefix_of(s.skip(j)) <==> (j + t.len() <= s.len() && s.subrange(j, j + t.len()) == t),
{
    if j + t.len() <= s.len() {
        assert(s.skip(j).subrange(0, t.len() as int) =~= s.subrange(j, j + t.len()));
    }
}

/// A position before which `t` does not start and at which it does (or the
/// end) is the first occurrence of `t`.
pub proof fn lemma_find_seq_at(s: Seq<char>, t: Seq<char>, i: int)
    requires
        0 <= i <= s.len(),
        forall|j: int| 0 <= j < i ==> !t.is_prefix_of(#[trigger] s.skip(j)),
        i == s.len() || t.is_prefix_of(s.skip(i)),
    ensures
        find_seq(s, t) == i,
    decreases s.len(),
{
    assert(s.skip(0) =~= s);
    if i > 0 {
        let d = s.drop_first();
        assert forall|j: int| 0 <= j < i - 1 implies !t.is_prefix_of(#[trigger] d.skip(j)) by {
            assert(d.skip(j) =~= s.skip(j + 1));
        }
        assert(d.skip(i - 1) =~= s.skip(i));
        lemma_find_seq_at(d, t, i - 1);
    }
}

/// The position at which `c` first occurs in `v` at or after `start`.
pub fn find_char_from(v: &Vec<char>, c: char, start: usize) -> (r: usize)
    requires
        start <= v@.len(),
    ensures
        r == start + find_char(v@.skip(start as int), c),
        r <= v@.len(),
{
    let mut i: usize = start;
    while i < v.len() && v[i] != c
        invariant
            start <= i <= v@.len(),
            forall|j: int| start <= j < i ==> v@[j] != c,
        decreases v@.len() - i,
    {
        i = i + 1;
    }
    proof {
        let t = v@.skip(start as int);
        assert forall|j: int| 0 <= j < i - start implies t[j] != c by {
            assert(t[j] == v@[j + start]);
        }
        if i < v@.len() {
            assert(t[i - start] == v@[i as int]);
        }
        lemma_find_char_at(t, c, i - start);
    }
    i
}

/// Where the `n`-th '.'-separated piece of `v` starts and ends.
pub fn segment_bounds(v: &Vec<char>, n: usize) -> (r: Option<(usize, usize)>)
    ensures
        match r {
            Some((a, b)) => a <= b <= v@.len() && segment(v@, n as nat) == Some(v@.subrange(a as int, b as int)),
            None => segment(v@, n as nat) is None,
        },
{
    let mut start: usize = 0;
    let mut k: usize = n;
    assert(v@.skip(0) =~= v@);
    loop
        invariant
            start <= v@.len(),
            k <= n,
            segment(v@, n as nat) == segment(v@.skip(start as int), k as nat),
        decreases k,
    {
        let j = find_char_from(v, '.', start);
        let ghost t = v@.skip(start as int);
        proof {
            lemma_find_char(t, '.');
        }
        if k == 0 {
            assert(before_char(t, '.') =~= v@.subrange(start as int, j as int));
            return Some((start, j));
        }
        if j >= v.len() {
            return None;
        }
        assert(after_char(t, '.') =~= v@.skip(j + 1));
        start = j + 1;
        k = k - 1;
    }
}

/// Whether `t` occurs in `v` at position `i`.
pub fn occurs_at(v: &Vec<char>, t: &Vec<char>, i: usize) -> (r: bool)
    requires
        i <= v@.len(),
    ensures
        r == (i + t@.len() <= v@.len() && v@.subrange(i as int, i + t@.len()) == t@),
{
    if t.len() > v.len() - i {
        return false;
    }
    let n = v.len();
    let mut j: usize = 0;
    while j < t.len()
        invariant
            n == v@.len(),
            i + t@.len() <= v@.len(),
            j <= t@.len(),
            forall|m: int| 0 <= m < j ==> t@[m] == v@[i + m],
        decreases t@.len() - j,
    {
        assert(i + j < v@.len());
        if t[j] != v[i + j] {
            assert(v@.subrange(i as int, i + t@.len())[j as int] == v@[i + j]);
            return false;
        }
        j = j + 1;
    }
    assert(v@.subrange(i as int, i + t@.len()) =~= t@);
    true
}

/// Whether `t` occurs in `v`.
pub fn contains_chars(v: &Vec<char>, t: &Vec<char>) -> (r: bool)
    ensures
        r == contains_seq(v@, t@),
{
    if t.len() > v.len() {
        return false;
    }
    let last = v.len() - t.len();
    let mut i: usize = 0;
    while i <= last
        invariant
            last + t@.len() == v@.len(),
            forall|j: int| 0 <= j < i ==> #[trigger] v@.subrange(j, j + t@.len()) != t@,
        decreases last + 1 - i,
    {
        if occurs_at(v, t, i) {
            return true;
        }
        if i == last {
            return false;
        }
        i = i + 1;
    }
    false
}

/// Index of the first occurrence of `t` in `v`, which must have one.
pub fn find_chars(v: &Vec<char>, t: &Vec<char>) -> (r: usize)
    requires
        contains_seq(v@, t@),
    ensures
        r == find_seq(v@, t@),
        r + t@.len() <= v@.len(),
{
    let n = v.len();
    let ghost w = choose|w: int| 0 <= w && w + t@.len() <= v@.len() && #[trigger] v@.subrange(w, w + t@.len()) == t@;
    let mut i: usize = 0;
    loop
        invariant
            n == v@.len(),
            i <= w,
            0 <= w && w + t@.len() <= v@.len(),
            v@.subrange(w, w + t@.len()) == t@,
            forall|j: int| 0 <= j < i ==> !t@.is_prefix_of(#[trigger] v@.skip(j)),
        decreases w - i,
    {
        proof {
            lemma_prefix_at(v@, t@, i as int);
        }
        if occurs_at(v, t, i) {
            proof {
                lemma_find_seq_at(v@, t@, i as int);
            }
            return i;
        }
        assert(i < w);
        assert(w <= v@.len());
        i = i + 1;
    }
}

/// `s` with every '(' replaced by '.' and every ')' removed.
pub fn normalize_key(s: &str) -> (r: String)
    ensures
        r@ == normalized(s@),
{
    let cs = chars_of(s);
    let n = cs.len();
    let mut out = String::new();
    let mut start: usize = 0;
    let mut i: usize = 0;
    proof {
        reveal_strlit(".");
    }
    while i < n
        invariant
            n == cs@.len(),
            cs@ == s@,
            start <= i <= n,
            "."@ == seq!['.'],
            out@ + s@.subrange(start as int, i as int) == normalized(s@.take(i as int)),
        decreases n - i,
    {
        let c = cs[i];
        proof {
            lemma_normalized_take(s@, i as int);
        }
        if c == '(' || c == ')' {
            let run = s.substring_char(start, i);
            out.append(run);
            if c == '(' {
                out.append(".");
            }
            start = i + 1;
            assert(s@.subrange(start as int, i + 1) =~= Seq::<char>::empty());
        } else {
            assert(s@.subrange(start as int, i + 1) =~= s@.subrange(start as int, i as int).push(c));
        }
        i = i + 1;
    }
    let rest = s.substring_char(start, n);
    out.append(rest);
    assert(s@.take(n as int) =~= s@);
    out
}

/// The string of the one decimal digit `d`.
fn digit_str(d: u64) -> (r: &'static str)
    requires
        d < 10,
    ensures
        r@ == seq![digit_char(d as nat)],
{
    proof {
        reveal_strlit("0");
        reveal_strlit("1");
        reveal_strlit("2");
        reveal_strlit("3");
        reveal_strlit("4");
        reveal_strlit("5");
        reveal_strlit("6");
        reveal_strlit("7");
        reveal_strlit("8");
        reveal_strlit("9");
    }
    if d == 0 {
        "0"
    } else if d == 1 {
        "1"
    } else if d == 2 {
        "2"
    } else if d == 3 {
        "3"
    } else if d == 4 {
        "4"
    } else if d == 5 {
        "5"
    } else if d == 6 {
        "6"
    } else if d == 7 {
        "7"
    } else if d == 8 {
        "8"
    } else {
        "9"
    }
}

/// The decimal text of `n`, as Rust displays it.
pub fn decimal_string(n: u64) -> (r: String)
    ensures
        r@ == decimal_text(n as nat),
    decreases n,
{
    if n < 10 {
        digit_str(n).to_owned()
    } else {
        let mut r = decimal_string(n / 10);
        r.append(digit_str(n % 10));
        r
    }
}

/// The value of `v` as an unsigned integer of at most `max`, read as Rust
/// reads one: `None` where Rust's parsing fails.
pub fn parse_unsigned_in(v: &Vec<char>, max: u32) -> (r: Option<u32>)
    ensures
        match r {
            Some(n) => parse_unsigned(v@, max as nat) == Some(n as nat),
            None => parse_unsigned(v@, max as nat) is None,
        },
{
    let start: usize = if v.len() > 0 && v[0] == '+' { 1 } else { 0 };
    let ghost d = unsigned_digits(v@);
    assert(d =~= v@.skip(start as int));
    if start == v.len() {
        return None;
    }
    let mut acc: u64 = 0;
    let mut i: usize = start;
    assert(d.take(0) =~= Seq::<char>::empty());
    while i < v.len()
        invariant
            start <= i <= v@.len(),
            start < v@.len(),
            d =~= v@.skip(start as int),
            d == unsigned_digits(v@),
            forall|j: int| 0 <= j < i - start ==> is_digit(#[trigger] d[j]),
            acc == digits_value(d.take(i - start)),
            acc <= max,
        decreases v@.len() - i,
    {
        let c = v[i];
        if !('0' <= c && c <= '9') {
            assert(!is_digit(d[i - start]));
            return None;
        }
        let digit = (c as u64) - 48;
        proof {
            assert(d.take(i - start + 1).drop_last() =~= d.take(i - start));
        }
        acc = acc * 10 + digit;
        if acc > max as u64 {
            proof {
                if forall|j: int| 0 <= j < d.len() ==> is_digit(#[trigger] d[j]) {
                    lemma_digits_value_monotone(d, i - start + 1);
                }
            }
            return None;
        }
        i = i + 1;
    }
    assert(d.take(d.len() as int) =~= d);
    Some(acc as u32)
}

} // verus!
