//! Set-difference between two traces, by syscall name.

use vstd::prelude::*;

use super::trace::{lemma_name_set_finite, name_set, sorted_names, Trace, TraceView};
use crate::text::{decimal, lemma_listed_shift, lemma_sorted_of, lemma_sorted_of_lists, listed_in_order, lists_exactly,
    occurs_at, placed_at, prefix, push_decimal_usize, seq_lt, sorted_of, strictly_sorted, strs};

verus! {

/// The outcome of comparing two traces' syscall names.
#[derive(Debug, Clone)]
pub struct DiffResult {
    /// Names only the first trace has, ascending.
    pub only_a: Vec<String>,
    /// Names only the second trace has, ascending.
    pub only_b: Vec<String>,
    /// Names both traces have, ascending.
    pub common: Vec<String>,
}

/// The names `a` has and `b` lacks, ascending, each once.
pub open spec fn only_in(a: TraceView, b: TraceView) -> Seq<Seq<char>> {
    sorted_of(name_set(a.counts).difference(name_set(b.counts)))
}

/// The names both `a` and `b` have, ascending, each once.
pub open spec fn in_both(a: TraceView, b: TraceView) -> Seq<Seq<char>> {
    sorted_of(name_set(a.counts).intersect(name_set(b.counts)))
}

/// One line per name, each starting with `mark`.
pub open spec fn marked_lines(mark: Seq<char>, names: Seq<Seq<char>>) -> Seq<char>
    decreases names.len(),
{
    if names.len() == 0 {
        Seq::empty()
    } else {
        marked_lines(mark, names.drop_last()) + mark + names.last() + "\n"@
    }
}

/// The human-readable diff report.
pub open spec fn render_text(
    only_a: Seq<Seq<char>>,
    only_b: Seq<Seq<char>>,
    common: Seq<Seq<char>>,
    a_label: Seq<char>,
    b_label: Seq<char>,
) -> Seq<char> {
    "Only in "@ + a_label + " ("@ + decimal(only_a.len()) + " syscalls):\n"@
        + marked_lines("  + "@, only_a) + "\n"@
        + "Only in "@ + b_label + " ("@ + decimal(only_b.len()) + " syscalls):\n"@
        + marked_lines("  - "@, only_b) + "\n"@
        + "In both ("@ + decimal(common.len()) + " syscalls)\n"@
}

/// The line a name gets under a mark.
pub open spec fn marked_line(mark: Seq<char>, name: Seq<char>) -> Seq<char> {
    mark + name + "\n"@
}

/// The lines of the first `j` names open the lines of all of them.
proof fn lemma_marked_prefix(mark: Seq<char>, names: Seq<Seq<char>>, j: int)
    requires
        0 <= j <= names.len(),
    ensures
        marked_lines(mark, names.take(j)).len() <= marked_lines(mark, names).len(),
        marked_lines(mark, names).subrange(0, marked_lines(mark, names.take(j)).len() as int)
            == marked_lines(mark, names.take(j)),
    decreases names.len(),
{
    if j == names.len() {
        assert(names.take(j) =~= names);
        assert(marked_lines(mark, names).subrange(0, marked_lines(mark, names).len() as int) =~= marked_lines(mark, names));
    } else {
        lemma_marked_prefix(mark, names.drop_last(), j);
        assert(names.drop_last().take(j) =~= names.take(j));
        let p = marked_lines(mark, names.take(j));
        let q = marked_lines(mark, names.drop_last());
        assert(marked_lines(mark, names) == q + mark + names.last() + "\n"@);
        assert(marked_lines(mark, names).subrange(0, p.len() as int) =~= q.subrange(0, p.len() as int));
    }
}

/// Each name's line follows the lines of the names before it.
proof fn lemma_marked_line_at(mark: Seq<char>, names: Seq<Seq<char>>, i: int)
    requires
        0 <= i < names.len(),
    ensures
        marked_lines(mark, names.take(i + 1)) == marked_lines(mark, names.take(i)) + marked_line(mark, names[i]),
        occurs_at(marked_lines(mark, names), marked_line(mark, names[i]), marked_lines(mark, names.take(i)).len() as int),
{
    let t = names.take(i + 1);
    assert(t.drop_last() =~= names.take(i));
    assert(t.last() == names[i]);
    assert(marked_lines(mark, t) =~= marked_lines(mark, names.take(i)) + marked_line(mark, names[i]));
    lemma_marked_prefix(mark, names, i + 1);
    let p = marked_lines(mark, names.take(i)).len() as int;
    let l = marked_line(mark, names[i]);
    assert(marked_lines(mark, names).subrange(p, p + l.len()) =~= marked_lines(mark, t).subrange(p, p + l.len()));
    assert(marked_lines(mark, t).subrange(p, p + l.len()) =~= l);
}

/// Every name gets its own line under the mark, in the names' order.
proof fn lemma_marked_lines_listed(mark: Seq<char>, names: Seq<Seq<char>>)
    ensures
        listed_in_order(marked_lines(mark, names), names.map_values(|n: Seq<char>| marked_line(mark, n))),
{
    let parts = names.map_values(|n: Seq<char>| marked_line(mark, n));
    let text = marked_lines(mark, names);
    let at = Seq::new(names.len(), |i: int| marked_lines(mark, names.take(i)).len() as int);
    assert forall|i: int| 0 <= i < parts.len() implies occurs_at(text, parts[i], #[trigger] at[i]) by {
        lemma_marked_line_at(mark, names, i);
    }
    assert forall|i: int, j: int| 0 <= i < j < parts.len() implies #[trigger] at[i] + parts[i].len() <= #[trigger] at[j] by {
        lemma_marked_line_at(mark, names, i);
        lemma_marked_prefix(mark, names.take(j), i + 1);
        assert(names.take(j).take(i + 1) =~= names.take(i + 1));
    }
    assert(placed_at(text, parts, at));
}

/// The report opens with the first trace's heading, which counts the
/// names only it has.
pub proof fn lemma_render_opens_with_first_heading(
    only_a: Seq<Seq<char>>,
    only_b: Seq<Seq<char>>,
    common: Seq<Seq<char>>,
    a_label: Seq<char>,
    b_label: Seq<char>,
)
    ensures
        occurs_at(
            render_text(only_a, only_b, common, a_label, b_label),
            "Only in "@ + a_label + " ("@ + decimal(only_a.len()) + " syscalls):\n"@,
            0,
        ),
{
    let h = "Only in "@ + a_label + " ("@ + decimal(only_a.len()) + " syscalls):\n"@;
    let text = render_text(only_a, only_b, common, a_label, b_label);
    assert(text.subrange(0, h.len() as int) =~= h);
}

/// The report closes with the line counting the names both traces have:
/// its number is the length of `common`.
pub proof fn lemma_render_closes_with_shared_count(
    only_a: Seq<Seq<char>>,
    only_b: Seq<Seq<char>>,
    common: Seq<Seq<char>>,
    a_label: Seq<char>,
    b_label: Seq<char>,
)
    ensures
        ({
            let text = render_text(only_a, only_b, common, a_label, b_label);
            let last = "In both ("@ + decimal(common.len()) + " syscalls)\n"@;
            occurs_at(text, last, text.len() - last.len())
        }),
{
    let text = render_text(only_a, only_b, common, a_label, b_label);
    let last = "In both ("@ + decimal(common.len()) + " syscalls)\n"@;
    assert(text.subrange(text.len() - last.len(), text.len() as int) =~= last);
}

/// The report lists every name only the first trace has on a line of
/// its own marked `+`, and every name only the second has on a line
/// marked `-`, each list in its order; the second trace's heading
/// counts its names.
pub proof fn lemma_render_lists_each_side(
    only_a: Seq<Seq<char>>,
    only_b: Seq<Seq<char>>,
    common: Seq<Seq<char>>,
    a_label: Seq<char>,
    b_label: Seq<char>,
)
    ensures
        listed_in_order(
            render_text(only_a, only_b, common, a_label, b_label),
            only_a.map_values(|n: Seq<char>| marked_line("  + "@, n)),
        ),
        listed_in_order(
            render_text(only_a, only_b, common, a_label, b_label),
            only_b.map_values(|n: Seq<char>| marked_line("  - "@, n)),
        ),
        listed_in_order(
            render_text(only_a, only_b, common, a_label, b_label),
            seq!["Only in "@ + b_label + " ("@ + decimal(only_b.len()) + " syscalls):\n"@],
        ),
{
    let text = render_text(only_a, only_b, common, a_label, b_label);
    let ha = "Only in "@ + a_label + " ("@ + decimal(only_a.len()) + " syscalls):\n"@;
    let hb = "Only in "@ + b_label + " ("@ + decimal(only_b.len()) + " syscalls):\n"@;
    let ma = marked_lines("  + "@, only_a);
    let mb = marked_lines("  - "@, only_b);
    let last = "In both ("@ + decimal(common.len()) + " syscalls)\n"@;
    lemma_marked_lines_listed("  + "@, only_a);
    assert(text =~= ha + ma + ("\n"@ + hb + mb + "\n"@ + last));
    lemma_listed_shift(ha, ma, "\n"@ + hb + mb + "\n"@ + last, only_a.map_values(|n: Seq<char>| marked_line("  + "@, n)));
    lemma_marked_lines_listed("  - "@, only_b);
    assert(text =~= (ha + ma + "\n"@ + hb) + mb + ("\n"@ + last));
    lemma_listed_shift(ha + ma + "\n"@ + hb, mb, "\n"@ + last, only_b.map_values(|n: Seq<char>| marked_line("  - "@, n)));
    let one = seq![hb];
    let at = seq![(ha + ma + "\n"@).len() as int];
    assert(text =~= (ha + ma + "\n"@) + hb + (mb + "\n"@ + last));
    assert(text.subrange(at[0], at[0] + hb.len()) =~= hb);
    assert(placed_at(text, one, at));
}

fn push_marked_lines(s: &mut String, mark: &str, names: &Vec<String>)
    ensures
        final(s)@ == old(s)@ + marked_lines(mark@, strs(names@)),
{
    let ghost start = s@;
    let ghost v = strs(names@);
    let mut i: usize = 0;
    while i < names.len()
        invariant
            i <= names.len(),
            v == strs(names@),
            s@ == start + marked_lines(mark@, prefix(v, i)),
        decreases names.len() - i,
    {
        s.append(mark);
        s.append(names[i].as_str());
        s.append("\n");
        assert(v.take(i + 1).drop_last() =~= prefix(v, i));
        i = i + 1;
    }
    assert(prefix(v, names.len()) =~= v);
}

impl DiffResult {
    /// The report listing each side's own names and counting the shared
    /// ones.
    pub fn render(&self, a_label: &str, b_label: &str) -> (s: String)
        ensures
            s@ == render_text(strs(self.only_a@), strs(self.only_b@), strs(self.common@), a_label@, b_label@),
    {
        let mut s = String::new();
        s.append("Only in ");
        s.append(a_label);
        s.append(" (");
        push_decimal_usize(&mut s, self.only_a.len());
        s.append(" syscalls):\n");
        push_marked_lines(&mut s, "  + ", &self.only_a);
        s.append("\n");
        s.append("Only in ");
        s.append(b_label);
        s.append(" (");
        push_decimal_usize(&mut s, self.only_b.len());
        s.append(" syscalls):\n");
        push_marked_lines(&mut s, "  - ", &self.only_b);
        s.append("\n");
        s.append("In both (");
        push_decimal_usize(&mut s, self.common.len());
        s.append(" syscalls)\n");
        s
    }
}

/// Whether `v` holds a string equal to `s`.
pub fn contains_string(v: &Vec<String>, s: &String) -> (r: bool)
    ensures
        r == strs(v@).contains(s@),
{
    let mut i: usize = 0;
    while i < v.len()
        invariant
            i <= v.len(),
            forall|j: int| 0 <= j < i ==> strs(v@)[j] != s@,
        decreases v.len() - i,
    {
        if v[i] == *s {
            assert(strs(v@)[i as int] == s@);
            return true;
        }
        i = i + 1;
    }
    false
}

/// Splits the strictly ascending `xs` by membership in `ys`: those not in
/// `ys`, and those in it, both ascending.
fn split_by(xs: &Vec<String>, ys: &Vec<String>) -> (r: (Vec<String>, Vec<String>))
    requires
        strictly_sorted(strs(xs@)),
    ensures
        strictly_sorted(strs(r.0@)),
        strictly_sorted(strs(r.1@)),
        forall|x: Seq<char>| #[trigger] strs(r.0@).contains(x) <==> (strs(xs@).contains(x) && !strs(ys@).contains(x)),
        forall|x: Seq<char>| #[trigger] strs(r.1@).contains(x) <==> (strs(xs@).contains(x) && strs(ys@).contains(x)),
{
    let ghost vx = strs(xs@);
    let ghost vy = strs(ys@);
    let mut out: Vec<String> = Vec::new();
    let mut both: Vec<String> = Vec::new();
    let mut i: usize = 0;
    while i < xs.len()
        invariant
            i <= xs.len(),
            vx == strs(xs@),
            vy == strs(ys@),
            strictly_sorted(vx),
            strictly_sorted(strs(out@)),
            strictly_sorted(strs(both@)),
            forall|x: Seq<char>| #[trigger] strs(out@).contains(x) <==> (prefix(vx, i).contains(x) && !vy.contains(x)),
            forall|x: Seq<char>| #[trigger] strs(both@).contains(x) <==> (prefix(vx, i).contains(x) && vy.contains(x)),
        decreases xs.len() - i,
    {
        let ghost old_out = strs(out@);
        let ghost old_both = strs(both@);
        let x = xs[i].clone();
        assert(x@ == vx[i as int]);
        assert forall|y: Seq<char>| prefix(vx, i).contains(y) implies seq_lt(y, vx[i as int]) by {
            let j = choose|j: int| 0 <= j < i && prefix(vx, i)[j] == y;
            assert(vx[j] == y);
        }
        assert forall|y: Seq<char>| #[trigger] vx.take(i + 1).contains(y) <==> (prefix(vx, i).contains(y) || y == vx[i as int]) by {
            if vx.take(i + 1).contains(y) {
                let j = choose|j: int| 0 <= j <= i && #[trigger] vx.take(i + 1)[j] == y;
                if j < i {
                    assert(prefix(vx, i)[j] == y);
                }
            }
            if prefix(vx, i).contains(y) {
                let j = choose|j: int| 0 <= j < i && prefix(vx, i)[j] == y;
                assert(vx.take(i + 1)[j] == y);
            }
            if y == vx[i as int] {
                assert(vx.take(i + 1)[i as int] == y);
            }
        }
        if contains_string(ys, &x) {
            both.push(x);
            assert(strs(both@) =~= old_both.push(vx[i as int]));
            assert forall|a: int, b: int| 0 <= a < b < strs(both@).len() implies seq_lt(#[trigger] strs(both@)[a], #[trigger] strs(both@)[b]) by {
                if b == old_both.len() {
                    assert(old_both.contains(old_both[a]));
                }
            }
            assert forall|y: Seq<char>| #[trigger] strs(both@).contains(y) <==> (vx.take(i + 1).contains(y) && vy.contains(y)) by {
                if strs(both@).contains(y) {
                    let j = choose|j: int| 0 <= j < strs(both@).len() && strs(both@)[j] == y;
                    if j < old_both.len() {
                        assert(old_both.contains(y));
                    }
                }
                if old_both.contains(y) {
                    let j = choose|j: int| 0 <= j < old_both.len() && old_both[j] == y;
                    assert(strs(both@)[j] == y);
                }
                if y == vx[i as int] {
                    assert(strs(both@)[old_both.len() as int] == y);
                }
            }
            assert forall|y: Seq<char>| #[trigger] strs(out@).contains(y) <==> (vx.take(i + 1).contains(y) && !vy.contains(y)) by {
            }
        } else {
            out.push(x);
            assert(strs(out@) =~= old_out.push(vx[i as int]));
            assert forall|a: int, b: int| 0 <= a < b < strs(out@).len() implies seq_lt(#[trigger] strs(out@)[a], #[trigger] strs(out@)[b]) by {
                if b == old_out.len() {
                    assert(old_out.contains(old_out[a]));
                }
            }
            assert forall|y: Seq<char>| #[trigger] strs(out@).contains(y) <==> (vx.take(i + 1).contains(y) && !vy.contains(y)) by {
                if strs(out@).contains(y) {
                    let j = choose|j: int| 0 <= j < strs(out@).len() && strs(out@)[j] == y;
                    if j < old_out.len() {
                        assert(old_out.contains(y));
                    }
                }
                if old_out.contains(y) {
                    let j = choose|j: int| 0 <= j < old_out.len() && old_out[j] == y;
                    assert(strs(out@)[j] == y);
                }
                if y == vx[i as int] {
                    assert(strs(out@)[old_out.len() as int] == y);
                }
            }
            assert forall|y: Seq<char>| #[trigger] strs(both@).contains(y) <==> (vx.take(i + 1).contains(y) && vy.contains(y)) by {
            }
        }
        i = i + 1;
    }
    assert(prefix(vx, xs.len()) =~= vx);
    (out, both)
}

/// Compares two traces by the set of syscall names they resolved;
/// architecture and counts play no part.
pub fn diff(a: &Trace, b: &Trace) -> (d: DiffResult)
    ensures
        (strs(d.only_a@), strs(d.only_b@), strs(d.common@)) == diff_lists(a@, b@),
{
    let a_names = a.unique_syscall_names();
    let b_names = b.unique_syscall_names();
    let (only_a, common) = split_by(&a_names, &b_names);
    let (only_b, _) = split_by(&b_names, &a_names);
    proof {
        let sa = name_set(a@.counts);
        let sb = name_set(b@.counts);
        assert(lists_exactly(strs(only_a@), sa.difference(sb)));
        assert(lists_exactly(strs(only_b@), sb.difference(sa)));
        assert(lists_exactly(strs(common@), sa.intersect(sb)));
        lemma_sorted_of(strs(only_a@), sa.difference(sb));
        lemma_sorted_of(strs(only_b@), sb.difference(sa));
        lemma_sorted_of(strs(common@), sa.intersect(sb));
    }
    DiffResult { only_a, only_b, common }
}

/// The three lists a diff of `a` against `b` holds: names only in `a`,
/// names only in `b`, names in both.
pub open spec fn diff_lists(a: TraceView, b: TraceView) -> (Seq<Seq<char>>, Seq<Seq<char>>, Seq<Seq<char>>) {
    (only_in(a, b), only_in(b, a), in_both(a, b))
}

/// Comparing `b` with `a` mirrors comparing `a` with `b`: the sides
/// swap and the shared names stay.
pub proof fn lemma_diff_mirrors(a: TraceView, b: TraceView)
    ensures
        diff_lists(b, a) == (diff_lists(a, b).1, diff_lists(a, b).0, diff_lists(a, b).2),
{
    assert(name_set(a.counts).intersect(name_set(b.counts)) =~= name_set(b.counts).intersect(name_set(a.counts)));
}

/// A diff partitions each side's names: every name of `a` is either
/// only in `a` or in both, never both, and likewise for `b`; each list is
/// ascending without repeats.
pub proof fn lemma_diff_partitions(a: TraceView, b: TraceView)
    ensures
        strictly_sorted(only_in(a, b)),
        strictly_sorted(only_in(b, a)),
        strictly_sorted(in_both(a, b)),
        forall|x: Seq<char>| #[trigger] name_set(a.counts).contains(x) <==> (only_in(a, b).contains(x) || in_both(a, b).contains(x)),
        forall|x: Seq<char>| #[trigger] name_set(b.counts).contains(x) <==> (only_in(b, a).contains(x) || in_both(a, b).contains(x)),
        forall|x: Seq<char>| !(#[trigger] only_in(a, b).contains(x) && in_both(a, b).contains(x)),
        forall|x: Seq<char>| !(#[trigger] only_in(b, a).contains(x) && in_both(a, b).contains(x)),
{
    let sa = name_set(a.counts);
    let sb = name_set(b.counts);
    lemma_name_set_finite(a.counts);
    lemma_name_set_finite(b.counts);
    lemma_sorted_of_lists(sa.difference(sb));
    lemma_sorted_of_lists(sb.difference(sa));
    lemma_sorted_of_lists(sa.intersect(sb));
}

/// A trace compared with itself has nothing on either side, and all its
/// names in common.
pub proof fn lemma_diff_with_itself(a: TraceView)
    ensures
        only_in(a, a).len() == 0,
        in_both(a, a) == sorted_names(a.counts),
{
    let sa = name_set(a.counts);
    lemma_name_set_finite(a.counts);
    assert(sa.difference(sa) =~= Set::empty());
    assert(sa.intersect(sa) =~= sa);
    lemma_sorted_of_lists(sa.difference(sa));
    if only_in(a, a).len() > 0 {
        assert(only_in(a, a).contains(only_in(a, a)[0]));
    }
}

} // verus!
