//! Character-sequence helpers shared by the emitters: decimal rendering,
//! padding, joining, and the lexicographic order on names.

use vstd::prelude::*;

verus! {

/// Appends one character to a string.
///
/// Trusted: calls `String::push`, which std documents as appending the
/// given `char` to the end of the string.
#[verifier::external_body]
pub(crate) fn push_char(s: &mut String, c: char)
    ensures
        final(s)@ == old(s)@.push(c),
{
    s.push(c)
}

/// The ASCII digit for `d` (which should be below ten).
pub open spec fn digit_char(d: nat) -> char {
    if d == 0 { '0' }
    else if d == 1 { '1' }
    else if d == 2 { '2' }
    else if d == 3 { '3' }
    else if d == 4 { '4' }
    else if d == 5 { '5' }
    else if d == 6 { '6' }
    else if d == 7 { '7' }
    else if d == 8 { '8' }
    else { '9' }
}

/// The decimal rendering of `n`, most significant digit first, without
/// leading zeros (zero renders as "0").
pub open spec fn decimal(n: nat) -> Seq<char>
    decreases n,
{
    if n < 10 {
        seq![digit_char(n)]
    } else {
        decimal(n / 10).push(digit_char(n % 10))
    }
}

/// `n` spaces.
pub open spec fn spaces(n: nat) -> Seq<char> {
    Seq::new(n, |i: int| ' ')
}

/// `s` right-aligned in a field of `width` characters, as `{:>width}`
/// renders it.
pub open spec fn pad_left(s: Seq<char>, width: nat) -> Seq<char> {
    if s.len() < width {
        spaces((width - s.len()) as nat) + s
    } else {
        s
    }
}

/// The items of `items` separated by `sep`.
pub open spec fn join(items: Seq<Seq<char>>, sep: Seq<char>) -> Seq<char>
    decreases items.len(),
{
    if items.len() == 0 {
        Seq::empty()
    } else if items.len() == 1 {
        items[0]
    } else {
        join(items.drop_last(), sep) + sep + items.last()
    }
}

fn digit(d: u64) -> (c: char)
    requires
        d < 10,
    ensures
        c == digit_char(d as nat),
{
    if d == 0 { '0' }
    else if d == 1 { '1' }
    else if d == 2 { '2' }
    else if d == 3 { '3' }
    else if d == 4 { '4' }
    else if d == 5 { '5' }
    else if d == 6 { '6' }
    else if d == 7 { '7' }
    else if d == 8 { '8' }
    else { '9' }
}

/// Appends the decimal rendering of `n`.
pub fn push_decimal(s: &mut String, n: u64)
    ensures
        final(s)@ == old(s)@ + decimal(n as nat),
    decreases n,
{
    if n >= 10 {
        push_decimal(s, n / 10);
    }
    push_char(s, digit(n % 10));
}

/// The decimal rendering of `n` as a new string.
pub fn decimal_string(n: u64) -> (s: String)
    ensures
        s@ == decimal(n as nat),
{
    let mut s = String::new();
    push_decimal(&mut s, n);
    s
}

/// The first `n` items of `v`.
pub open spec fn prefix<T>(v: Seq<T>, n: usize) -> Seq<T> {
    v.take(n as int)
}

/// Appends the decimal rendering of a length or index.
pub fn push_decimal_usize(s: &mut String, n: usize)
    ensures
        final(s)@ == old(s)@ + decimal(n as nat),
{
    push_decimal(s, n as u64);
}

/// Appends `n` spaces.
pub fn push_spaces(s: &mut String, n: usize)
    ensures
        final(s)@ == old(s)@ + spaces(n as nat),
{
    let ghost start = s@;
    let mut i: usize = 0;
    while i < n
        invariant
            i <= n,
            s@ == start + spaces(i as nat),
        decreases n - i,
    {
        push_char(s, ' ');
        i = i + 1;
        assert(s@ =~= start + spaces(i as nat));
    }
}

/// The characters of `s` as a vector.
pub fn chars_of(s: &str) -> (v: Vec<char>)
    ensures
        v@ == s@,
{
    let n = s.unicode_len();
    let mut v: Vec<char> = Vec::new();
    let mut i: usize = 0;
    while i < n
        invariant
            n == s@.len(),
            i <= n,
            v@ == s@.take(i as int),
        decreases n - i,
    {
        v.push(s.get_char(i));
        i = i + 1;
        assert(v@ =~= s@.take(i as int));
    }
    assert(s@.take(n as int) =~= s@);
    v
}

/// Appends `t` right-aligned in a field of `width` characters.
pub fn push_padded(s: &mut String, t: &str, width: usize)
    ensures
        final(s)@ == old(s)@ + pad_left(t@, width as nat),
{
    let n = t.unicode_len();
    if n < width {
        push_spaces(s, width - n);
    }
    s.append(t);
    assert(final(s)@ =~= old(s)@ + pad_left(t@, width as nat)) by {
        if n < width {
            assert(spaces((width - n) as nat) + t@ == pad_left(t@, width as nat));
        }
    }
}


/// Lexicographic order on character sequences, comparing characters by
/// their Unicode scalar values. On valid strings this is the order that
/// std's `Ord for str` gives, since UTF-8 preserves scalar-value order
/// byte by byte.
pub open spec fn seq_lt(a: Seq<char>, b: Seq<char>) -> bool
    decreases a.len(),
{
    if a.len() == 0 {
        b.len() > 0
    } else if b.len() == 0 {
        false
    } else if a[0] != b[0] {
        (a[0] as int) < (b[0] as int)
    } else {
        seq_lt(a.drop_first(), b.drop_first())
    }
}

/// Every element is below every later element: sorted, no duplicates.
pub open spec fn strictly_sorted(s: Seq<Seq<char>>) -> bool {
    forall|i: int, j: int| 0 <= i < j < s.len() ==> seq_lt(#[trigger] s[i], #[trigger] s[j])
}

/// `q` holds exactly the members of `set`.
pub open spec fn lists_exactly(q: Seq<Seq<char>>, set: Set<Seq<char>>) -> bool {
    forall|x: Seq<char>| #[trigger] q.contains(x) <==> set.contains(x)
}

/// The members of `set` in ascending order, each once (meaningful for a
/// finite set; see `lemma_sorted_of`).
pub open spec fn sorted_of(set: Set<Seq<char>>) -> Seq<Seq<char>> {
    choose|q: Seq<Seq<char>>| strictly_sorted(q) && lists_exactly(q, set)
}

pub proof fn lemma_seq_lt_irreflexive(a: Seq<char>)
    ensures
        !seq_lt(a, a),
    decreases a.len(),
{
    if a.len() > 0 {
        lemma_seq_lt_irreflexive(a.drop_first());
    }
}

pub proof fn lemma_seq_lt_transitive(a: Seq<char>, b: Seq<char>, c: Seq<char>)
    requires
        seq_lt(a, b),
        seq_lt(b, c),
    ensures
        seq_lt(a, c),
    decreases a.len(),
{
    if a.len() > 0 && b.len() > 0 && c.len() > 0 {
        if a[0] == b[0] && b[0] == c[0] {
            lemma_seq_lt_transitive(a.drop_first(), b.drop_first(), c.drop_first());
        }
    }
}

pub proof fn lemma_seq_lt_trichotomy(a: Seq<char>, b: Seq<char>)
    ensures
        a == b || seq_lt(a, b) || seq_lt(b, a),
        !(seq_lt(a, b) && seq_lt(b, a)),
    decreases a.len(),
{
    if a.len() > 0 && b.len() > 0 {
        if a[0] == b[0] {
            lemma_seq_lt_trichotomy(a.drop_first(), b.drop_first());
            if a.drop_first() == b.drop_first() {
                assert(a =~= seq![a[0]] + a.drop_first());
                assert(b =~= seq![b[0]] + b.drop_first());
            }
        } else {
            assert((a[0] as int) != (b[0] as int));
        }
    } else if a.len() == 0 && b.len() == 0 {
        assert(a =~= b);
    }
}

/// Two ascending duplicate-free sequences with the same members are equal.
pub proof fn lemma_strictly_sorted_unique(p: Seq<Seq<char>>, q: Seq<Seq<char>>)
    requires
        strictly_sorted(p),
        strictly_sorted(q),
        forall|x: Seq<char>| p.contains(x) <==> q.contains(x),
    ensures
        p == q,
    decreases p.len(),
{
    if p.len() == 0 {
        if q.len() > 0 {
            assert(q.contains(q[0]));
        }
        assert(p =~= q);
    } else {
        assert(p.contains(p[0]));
        assert(q.len() > 0);
        assert(q.contains(q[0]));
        let k = choose|k: int| 0 <= k < q.len() && q[k] == p[0];
        let m = choose|m: int| 0 <= m < p.len() && p[m] == q[0];
        if k > 0 {
            assert(seq_lt(q[0], q[k]));
            if m > 0 {
                assert(seq_lt(p[0], p[m]));
                lemma_seq_lt_trichotomy(p[0], q[0]);
            } else {
                lemma_seq_lt_irreflexive(q[0]);
            }
        }
        assert(p[0] == q[0]);
        let p1 = p.drop_first();
        let q1 = q.drop_first();
        assert forall|x: Seq<char>| p1.contains(x) <==> q1.contains(x) by {
            if p1.contains(x) {
                let i = choose|i: int| 0 <= i < p1.len() && p1[i] == x;
                assert(p.contains(x));
                assert(seq_lt(p[0], p[i + 1]));
                lemma_seq_lt_irreflexive(x);
                let j = choose|j: int| 0 <= j < q.len() && q[j] == x;
                assert(j != 0);
                assert(q1[j - 1] == x);
            }
            if q1.contains(x) {
                let i = choose|i: int| 0 <= i < q1.len() && q1[i] == x;
                assert(q.contains(x));
                assert(seq_lt(q[0], q[i + 1]));
                lemma_seq_lt_irreflexive(x);
                let j = choose|j: int| 0 <= j < p.len() && p[j] == x;
                assert(j != 0);
                assert(p1[j - 1] == x);
            }
        }
        lemma_strictly_sorted_unique(p1, q1);
        assert(p =~= seq![p[0]] + p1);
        assert(q =~= seq![q[0]] + q1);
    }
}

/// Any ascending duplicate-free listing of `set` is `sorted_of(set)`.
pub proof fn lemma_sorted_of(q: Seq<Seq<char>>, set: Set<Seq<char>>)
    requires
        strictly_sorted(q),
        lists_exactly(q, set),
    ensures
        sorted_of(set) == q,
{
    let r = sorted_of(set);
    assert(strictly_sorted(r) && lists_exactly(r, set));
    lemma_strictly_sorted_unique(r, q);
}

/// `x` put into its place in the ascending list `q`, unless present.
pub open spec fn insert_sorted(q: Seq<Seq<char>>, x: Seq<char>) -> Seq<Seq<char>>
    decreases q.len(),
{
    if q.len() == 0 {
        seq![x]
    } else if seq_lt(x, q[0]) {
        seq![x] + q
    } else if x == q[0] {
        q
    } else {
        seq![q[0]] + insert_sorted(q.drop_first(), x)
    }
}

pub proof fn lemma_insert_sorted(q: Seq<Seq<char>>, x: Seq<char>)
    requires
        strictly_sorted(q),
    ensures
        strictly_sorted(insert_sorted(q, x)),
        forall|y: Seq<char>| #[trigger] insert_sorted(q, x).contains(y) <==> (q.contains(y) || y == x),
    decreases q.len(),
{
    let r = insert_sorted(q, x);
    if q.len() == 0 {
        assert forall|y: Seq<char>| #[trigger] r.contains(y) <==> (q.contains(y) || y == x) by {
            if r.contains(y) {
                assert(r[0] == x);
            }
            if y == x {
                assert(r[0] == y);
            }
        }
    } else if seq_lt(x, q[0]) {
        assert forall|a: int, b: int| 0 <= a < b < r.len() implies seq_lt(#[trigger] r[a], #[trigger] r[b]) by {
            if a == 0 && b > 1 {
                lemma_seq_lt_transitive(x, q[0], q[b - 1]);
            } else if a > 0 {
                assert(r[a] == q[a - 1] && r[b] == q[b - 1]);
            }
        }
        assert forall|y: Seq<char>| #[trigger] r.contains(y) <==> (q.contains(y) || y == x) by {
            if r.contains(y) {
                let k = choose|k: int| 0 <= k < r.len() && r[k] == y;
                if k > 0 {
                    assert(q[k - 1] == y);
                }
            }
            if q.contains(y) {
                let k = choose|k: int| 0 <= k < q.len() && q[k] == y;
                assert(r[k + 1] == y);
            }
            if y == x {
                assert(r[0] == y);
            }
        }
    } else if x == q[0] {
        assert(q.contains(q[0]));
    } else {
        lemma_seq_lt_trichotomy(x, q[0]);
        let t = q.drop_first();
        assert forall|a: int, b: int| 0 <= a < b < t.len() implies seq_lt(#[trigger] t[a], #[trigger] t[b]) by {
            assert(t[a] == q[a + 1] && t[b] == q[b + 1]);
        }
        lemma_insert_sorted(t, x);
        let rt = insert_sorted(t, x);
        assert(r == seq![q[0]] + rt);
        assert forall|b: int| 0 <= b < rt.len() implies seq_lt(q[0], #[trigger] rt[b]) by {
            assert(rt.contains(rt[b]));
            if rt[b] != x {
                assert(t.contains(rt[b]));
                let k = choose|k: int| 0 <= k < t.len() && t[k] == rt[b];
                assert(q[k + 1] == rt[b]);
            }
        }
        assert forall|a: int, b: int| 0 <= a < b < r.len() implies seq_lt(#[trigger] r[a], #[trigger] r[b]) by {
            if a == 0 {
                assert(r[b] == rt[b - 1]);
            } else {
                assert(r[a] == rt[a - 1] && r[b] == rt[b - 1]);
            }
        }
        assert forall|y: Seq<char>| #[trigger] r.contains(y) <==> (q.contains(y) || y == x) by {
            if r.contains(y) {
                let k = choose|k: int| 0 <= k < r.len() && r[k] == y;
                if k == 0 {
                    assert(q[0] == y);
                } else {
                    assert(rt[k - 1] == y);
                    assert(rt.contains(y));
                    if y != x {
                        let j = choose|j: int| 0 <= j < t.len() && t[j] == y;
                        assert(q[j + 1] == y);
                    }
                }
            }
            if q.contains(y) {
                let k = choose|k: int| 0 <= k < q.len() && q[k] == y;
                if k == 0 {
                    assert(r[0] == y);
                } else {
                    assert(t[k - 1] == y);
                    assert(t.contains(y));
                    assert(rt.contains(y));
                    let j = choose|j: int| 0 <= j < rt.len() && rt[j] == y;
                    assert(r[j + 1] == y);
                }
            }
            if y == x {
                assert(rt.contains(x));
                let j = choose|j: int| 0 <= j < rt.len() && rt[j] == y;
                assert(r[j + 1] == y);
            }
        }
    }
}

/// Every finite set of names has its ascending listing.
pub proof fn lemma_sorted_of_lists(set: Set<Seq<char>>)
    requires
        set.finite(),
    ensures
        strictly_sorted(sorted_of(set)),
        lists_exactly(sorted_of(set), set),
    decreases set.len(),
{
    if set.len() == 0 {
        let e = Seq::<Seq<char>>::empty();
        assert(set =~= Set::empty()) by {
            if exists|y: Seq<char>| set.contains(y) {
                let y = choose|y: Seq<char>| set.contains(y);
                assert(set.remove(y).len() < set.len());
            }
        }
        assert(lists_exactly(e, set));
        lemma_sorted_of(e, set);
    } else {
        let x = set.choose();
        let rest = set.remove(x);
        lemma_sorted_of_lists(rest);
        let q = sorted_of(rest);
        lemma_insert_sorted(q, x);
        let r = insert_sorted(q, x);
        assert(lists_exactly(r, set));
        lemma_sorted_of(r, set);
    }
}

/// Whether `a` sorts before `b`.
pub fn string_lt(a: &str, b: &str) -> (r: bool)
    ensures
        r == seq_lt(a@, b@),
{
    let x = chars_of(a);
    let y = chars_of(b);
    let mut i: usize = 0;
    assert(a@.skip(0) =~= a@);
    assert(b@.skip(0) =~= b@);
    while i < x.len() && i < y.len() && x[i] == y[i]
        invariant
            x@ == a@,
            y@ == b@,
            i <= x.len(),
            i <= y.len(),
            seq_lt(a@, b@) == seq_lt(a@.skip(i as int), b@.skip(i as int)),
        decreases x.len() - i,
    {
        assert(a@.skip(i as int).drop_first() =~= a@.skip(i + 1));
        assert(b@.skip(i as int).drop_first() =~= b@.skip(i + 1));
        i = i + 1;
    }
    if i == x.len() {
        i < y.len()
    } else if i == y.len() {
        false
    } else {
        x[i] < y[i]
    }
}


/// The character sequences of a sequence of strings.
pub open spec fn strs(v: Seq<String>) -> Seq<Seq<char>> {
    v.map_values(|s: String| s@)
}

/// Whether `a` and `b` hold the same characters.
pub fn str_eq(a: &str, b: &str) -> (r: bool)
    ensures
        r == (a@ == b@),
{
    let x = chars_of(a);
    let y = chars_of(b);
    if x.len() != y.len() {
        return false;
    }
    let mut i: usize = 0;
    while i < x.len()
        invariant
            x@ == a@,
            y@ == b@,
            x.len() == y.len(),
            i <= x.len(),
            forall|j: int| 0 <= j < i ==> x@[j] == y@[j],
        decreases x.len() - i,
    {
        if x[i] != y[i] {
            return false;
        }
        i = i + 1;
    }
    assert(x@ =~= y@);
    true
}

/// Joining one more item extends the join of the items before it.
pub proof fn lemma_join_step(items: Seq<Seq<char>>, sep: Seq<char>, i: int)
    requires
        0 <= i < items.len(),
    ensures
        join(items.take(i + 1), sep) == if i == 0 {
            items[0]
        } else {
            join(items.take(i), sep) + sep + items[i]
        },
{
    assert(items.take(i + 1).drop_last() =~= items.take(i));
}

/// Appends `items` separated by `sep`.
pub fn push_joined(s: &mut String, items: &Vec<String>, sep: &str)
    ensures
        final(s)@ == old(s)@ + join(strs(items@), sep@),
{
    let ghost start = s@;
    let ghost v = strs(items@);
    let mut i: usize = 0;
    while i < items.len()
        invariant
            i <= items.len(),
            v == strs(items@),
            s@ == start + join(v.take(i as int), sep@),
        decreases items.len() - i,
    {
        if i > 0 {
            s.append(sep);
        }
        s.append(items[i].as_str());
        proof {
            lemma_join_step(v, sep@, i as int);
        }
        i = i + 1;
    }
    assert(v.take(items.len() as int) =~= v);
}

/// `part` stands in `text` starting at offset `at`.
pub open spec fn occurs_at(text: Seq<char>, part: Seq<char>, at: int) -> bool {
    0 <= at && at + part.len() <= text.len() && text.subrange(at, at + part.len()) == part
}

/// The `parts` stand in `text` one after another, in their order and
/// without overlapping.
pub open spec fn listed_in_order(text: Seq<char>, parts: Seq<Seq<char>>) -> bool {
    exists|at: Seq<int>| #[trigger] at.len() == parts.len() && placed_at(text, parts, at)
}

/// The `parts` stand in `text` at the offsets `at`, in order and without
/// overlapping.
pub open spec fn placed_at(text: Seq<char>, parts: Seq<Seq<char>>, at: Seq<int>) -> bool {
    &&& at.len() == parts.len()
    &&& forall|i: int| 0 <= i < parts.len() ==> occurs_at(text, parts[i], #[trigger] at[i])
    &&& forall|i: int, j: int| 0 <= i < j < parts.len() ==> #[trigger] at[i] + parts[i].len() <= #[trigger] at[j]
}

/// What stands in `b` stands in `a + b + c`, shifted by the length of `a`.
pub proof fn lemma_occurs_shift(a: Seq<char>, b: Seq<char>, c: Seq<char>, part: Seq<char>, at: int)
    requires
        occurs_at(b, part, at),
    ensures
        occurs_at(a + b + c, part, at + a.len()),
{
    assert((a + b + c).subrange(at + a.len(), at + a.len() + part.len()) =~= b.subrange(at, at + part.len()));
}

/// Parts listed in order in `b` are listed in order in `a + b + c`.
pub proof fn lemma_listed_shift(a: Seq<char>, b: Seq<char>, c: Seq<char>, parts: Seq<Seq<char>>)
    requires
        listed_in_order(b, parts),
    ensures
        listed_in_order(a + b + c, parts),
{
    let at = choose|at: Seq<int>| #[trigger] at.len() == parts.len() && placed_at(b, parts, at);
    let at2 = at.map_values(|o: int| o + a.len());
    assert forall|i: int| 0 <= i < parts.len() implies occurs_at(a + b + c, parts[i], #[trigger] at2[i]) by {
        lemma_occurs_shift(a, b, c, parts[i], at[i]);
    }
    assert forall|i: int, j: int| 0 <= i < j < parts.len() implies #[trigger] at2[i] + parts[i].len() <= #[trigger] at2[j] by {
        assert(at[i] + parts[i].len() <= at[j]);
    }
    assert(placed_at(a + b + c, parts, at2));
}

} // verus!
