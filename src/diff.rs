//! Line diff of two texts by longest common subsequence, and its report.
use vstd::prelude::*;
use vstd::string::StrSliceExecFns;
use crate::text::{lines_of, split_lines, views};

verus! {

/// One step of an edit script over lines.
pub enum Edit {
    Keep(Seq<char>),
    Remove(Seq<char>),
    Add(Seq<char>),
}

/// Length of a longest common subsequence of two sequences of lines.
pub open spec fn lcs(a: Seq<Seq<char>>, b: Seq<Seq<char>>) -> nat
    decreases a.len() + b.len(),
{
    if a.len() == 0 || b.len() == 0 {
        0
    } else if a[0] == b[0] {
        1 + lcs(a.drop_first(), b.drop_first())
    } else {
        let x = lcs(a.drop_first(), b);
        let y = lcs(a, b.drop_first());
        if x >= y {
            x
        } else {
            y
        }
    }
}

/// The edit script from `a` to `b`: equal leading lines are kept, otherwise the
/// step that leaves the longer common subsequence is taken; on a tie, the
/// smaller of the two leading lines in text order goes first.
pub open spec fn script(a: Seq<Seq<char>>, b: Seq<Seq<char>>) -> Seq<Edit>
    decreases a.len() + b.len(),
{
    if a.len() == 0 {
        b.map_values(|l: Seq<char>| Edit::Add(l))
    } else if b.len() == 0 {
        a.map_values(|l: Seq<char>| Edit::Remove(l))
    } else if a[0] == b[0] {
        seq![Edit::Keep(a[0])] + script(a.drop_first(), b.drop_first())
    } else if removes_first(a, b) {
        seq![Edit::Remove(a[0])] + script(a.drop_first(), b)
    } else {
        seq![Edit::Add(b[0])] + script(a, b.drop_first())
    }
}

/// Whether, with different leading lines, the script removes `a[0]` rather
/// than adds `b[0]`.
pub open spec fn removes_first(a: Seq<Seq<char>>, b: Seq<Seq<char>>) -> bool {
    let x = lcs(a.drop_first(), b);
    let y = lcs(a, b.drop_first());
    x > y || (x == y && text_lt(a[0], b[0]))
}

/// Text order: by character codes, a proper prefix first.
pub open spec fn text_lt(x: Seq<char>, y: Seq<char>) -> bool
    decreases x.len(),
{
    if x.len() == 0 {
        y.len() > 0
    } else if y.len() == 0 {
        false
    } else if x[0] != y[0] {
        (x[0] as int) < (y[0] as int)
    } else {
        text_lt(x.drop_first(), y.drop_first())
    }
}

proof fn lemma_text_lt_total(x: Seq<char>, y: Seq<char>)
    requires
        x != y,
    ensures
        text_lt(x, y) != text_lt(y, x),
    decreases x.len(),
{
    if x.len() == 0 {
        if y.len() == 0 {
            assert(x =~= y);
        }
    } else if y.len() > 0 && x[0] == y[0] {
        if x.drop_first() == y.drop_first() {
            assert(x =~= seq![x[0]] + x.drop_first());
            assert(y =~= seq![y[0]] + y.drop_first());
        }
        lemma_text_lt_total(x.drop_first(), y.drop_first());
    } else if y.len() > 0 {
        assert(x[0] as int != y[0] as int);
    }
}

proof fn lemma_text_lt_from(x: Seq<char>, y: Seq<char>, i: int)
    requires
        0 <= i <= x.len(),
        i <= y.len(),
        forall|k: int| 0 <= k < i ==> x[k] == y[k],
    ensures
        text_lt(x, y) == text_lt(x.subrange(i, x.len() as int), y.subrange(i, y.len() as int)),
    decreases i,
{
    if i > 0 {
        lemma_text_lt_from(x.drop_first(), y.drop_first(), i - 1);
        assert(x.drop_first().subrange(i - 1, x.len() - 1) =~= x.subrange(i, x.len() as int));
        assert(y.drop_first().subrange(i - 1, y.len() - 1) =~= y.subrange(i, y.len() as int));
    } else {
        assert(x.subrange(0, x.len() as int) =~= x);
        assert(y.subrange(0, y.len() as int) =~= y);
    }
}

/// Whether `a` comes before `b` in text order.
pub fn text_less(a: &str, b: &str) -> (r: bool)
    ensures
        r == text_lt(a@, b@),
{
    let n = a.unicode_len();
    let m = b.unicode_len();
    let mut i: usize = 0;
    while i < n && i < m
        invariant
            n == a@.len(),
            m == b@.len(),
            i <= n,
            i <= m,
            forall|k: int| 0 <= k < i ==> a@[k] == b@[k],
        decreases n - i,
    {
        let x = a.get_char(i);
        let y = b.get_char(i);
        if x != y {
            proof {
                lemma_text_lt_from(a@, b@, i as int);
                assert(a@.subrange(i as int, n as int)[0] == x);
                assert(b@.subrange(i as int, m as int)[0] == y);
            }
            return (x as u32) < (y as u32);
        }
        i = i + 1;
    }
    proof {
        lemma_text_lt_from(a@, b@, i as int);
    }
    i == n && i < m
}

/// The text of one step in the report: a marker, the line, a newline.
pub open spec fn edit_text(e: Edit) -> Seq<char> {
    match e {
        Edit::Keep(l) => seq![' '] + l + seq!['\n'],
        Edit::Remove(l) => seq!['-'] + l + seq!['\n'],
        Edit::Add(l) => seq!['+'] + l + seq!['\n'],
    }
}

/// The texts of all steps, one after another.
pub open spec fn script_text(s: Seq<Edit>) -> Seq<char>
    decreases s.len(),
{
    if s.len() == 0 {
        Seq::empty()
    } else {
        script_text(s.drop_last()) + edit_text(s.last())
    }
}

/// Whether a script holds a step other than keeping a line.
pub open spec fn has_change(s: Seq<Edit>) -> bool {
    exists|i: int| 0 <= i < s.len() && !(#[trigger] s[i] is Keep)
}

/// The report of a script: empty where nothing changed, else every step.
pub open spec fn report(s: Seq<Edit>) -> Seq<char> {
    if has_change(s) {
        script_text(s)
    } else {
        Seq::empty()
    }
}

/// The report for two texts.
pub open spec fn diff_report(left: Seq<char>, right: Seq<char>) -> Seq<char> {
    report(script(lines_of(left), lines_of(right)))
}

proof fn lemma_lcs_bounded(a: Seq<Seq<char>>, b: Seq<Seq<char>>)
    ensures
        lcs(a, b) <= a.len(),
        lcs(a, b) <= b.len(),
    decreases a.len() + b.len(),
{
    if a.len() > 0 && b.len() > 0 {
        lemma_lcs_bounded(a.drop_first(), b.drop_first());
        lemma_lcs_bounded(a.drop_first(), b);
        lemma_lcs_bounded(a, b.drop_first());
    }
}

/// The suffix of `a` from `i` on.
pub open spec fn tail(a: Seq<Seq<char>>, i: int) -> Seq<Seq<char>> {
    a.subrange(i, a.len() as int)
}

/// Fills one row of the table: `row[j] == lcs(tail(a, i), tail(b, j))`, given
/// the row below for `i + 1`.
fn lcs_row(a: &Vec<String>, b: &Vec<String>, i: usize, below: &Vec<usize>) -> (row: Vec<usize>)
    requires
        i < a@.len(),
        below@.len() == b@.len() + 1,
        forall|j: int|
            0 <= j <= b@.len() ==> below@[j] as nat == lcs(
                tail(views(a@), i + 1),
                tail(views(b@), j),
            ),
    ensures
        row@.len() == b@.len() + 1,
        forall|j: int|
            0 <= j <= b@.len() ==> row@[j] as nat == lcs(tail(views(a@), i as int), tail(views(b@), j)),
{
    let ghost va = views(a@);
    let ghost vb = views(b@);
    let m = b.len();
    let mut row: Vec<usize> = Vec::new();
    let mut k: usize = 0;
    row.push(0);
    while k < m
        invariant
            row@.len() == k + 1,
            k <= m,
            m == b@.len(),
            forall|t: int| 0 <= t <= k ==> row@[t] == 0,
        decreases m - k,
    {
        row.push(0);
        k = k + 1;
    }
    proof {
        assert(tail(vb, m as int) =~= Seq::<Seq<char>>::empty());
    }
    let mut j: usize = m;
    while j > 0
        invariant
            j <= m,
            m == b@.len(),
            i < a@.len(),
            va == views(a@),
            vb == views(b@),
            row@.len() == m + 1,
            below@.len() == m + 1,
            forall|t: int|
                0 <= t <= m ==> below@[t] as nat == lcs(tail(va, i + 1), tail(vb, t)),
            forall|t: int|
                j <= t <= m ==> row@[t] as nat == lcs(tail(va, i as int), tail(vb, t)),
        decreases j,
    {
        let jj = j - 1;
        let ghost ta = tail(va, i as int);
        let ghost tb = tail(vb, jj as int);
        proof {
            assert(ta.drop_first() =~= tail(va, i + 1));
            assert(tb.drop_first() =~= tail(vb, jj + 1));
            assert(ta[0] == a@[i as int]@);
            assert(tb[0] == b@[jj as int]@);
            lemma_lcs_bounded(tail(va, i + 1), tail(vb, jj + 1));
        }
        let v: usize = if a[i] == b[jj] {
            1 + below[jj + 1]
        } else if below[jj] >= row[j] {
            below[jj]
        } else {
            row[j]
        };
        row.set(jj, v);
        j = jj;
    }
    row
}

/// The whole table, from the last row up: `rows[n - i][j] == lcs(tail(a, i), tail(b, j))`.
fn lcs_table(a: &Vec<String>, b: &Vec<String>) -> (rows: Vec<Vec<usize>>)
    ensures
        rows@.len() == a@.len() + 1,
        forall|r: int| 0 <= r <= a@.len() ==> #[trigger] rows@[r]@.len() == b@.len() + 1,
        forall|r: int, j: int|
            0 <= r <= a@.len() && 0 <= j <= b@.len() ==> #[trigger] rows@[r]@[j] as nat == lcs(
                tail(views(a@), a@.len() - r),
                tail(views(b@), j),
            ),
{
    let n = a.len();
    let m = b.len();
    let mut last: Vec<usize> = Vec::new();
    let mut k: usize = 0;
    last.push(0);
    while k < m
        invariant
            last@.len() == k + 1,
            k <= m,
            m == b@.len(),
            n == a@.len(),
            forall|t: int| 0 <= t <= k ==> last@[t] == 0,
        decreases m - k,
    {
        last.push(0);
        k = k + 1;
    }
    proof {
        assert(tail(views(a@), n as int) =~= Seq::<Seq<char>>::empty());
    }
    let mut rows: Vec<Vec<usize>> = Vec::new();
    rows.push(last);
    let mut i: usize = n;
    while i > 0
        invariant
            i <= n,
            n == a@.len(),
            m == b@.len(),
            rows@.len() == n - i + 1,
            forall|r: int| 0 <= r < rows@.len() ==> #[trigger] rows@[r]@.len() == m + 1,
            forall|r: int, j: int|
                0 <= r < rows@.len() && 0 <= j <= m ==> #[trigger] rows@[r]@[j] as nat == lcs(
                    tail(views(a@), n - r),
                    tail(views(b@), j),
                ),
        decreases i,
    {
        let row = lcs_row(a, b, i - 1, &rows[n - i]);
        rows.push(row);
        i = i - 1;
    }
    rows
}

proof fn lemma_adds_unfold(b: Seq<Seq<char>>)
    requires
        b.len() > 0,
    ensures
        b.map_values(|l: Seq<char>| Edit::Add(l)) =~= seq![Edit::Add(b[0])] + b.drop_first().map_values(
            |l: Seq<char>| Edit::Add(l),
        ),
{
}

proof fn lemma_removes_unfold(a: Seq<Seq<char>>)
    requires
        a.len() > 0,
    ensures
        a.map_values(|l: Seq<char>| Edit::Remove(l)) =~= seq![Edit::Remove(a[0])]
            + a.drop_first().map_values(|l: Seq<char>| Edit::Remove(l)),
{
}

proof fn lemma_script_text_push(s: Seq<Edit>, e: Edit)
    ensures
        script_text(s.push(e)) == script_text(s) + edit_text(e),
{
    assert(s.push(e).drop_last() =~= s);
}

/// The lines that a script reads: the kept and the removed ones.
pub open spec fn source(s: Seq<Edit>) -> Seq<Seq<char>>
    decreases s.len(),
{
    if s.len() == 0 {
        Seq::empty()
    } else {
        match s[0] {
            Edit::Keep(l) => seq![l] + source(s.drop_first()),
            Edit::Remove(l) => seq![l] + source(s.drop_first()),
            Edit::Add(_) => source(s.drop_first()),
        }
    }
}

/// The lines that a script writes: the kept and the added ones.
pub open spec fn target(s: Seq<Edit>) -> Seq<Seq<char>>
    decreases s.len(),
{
    if s.len() == 0 {
        Seq::empty()
    } else {
        match s[0] {
            Edit::Keep(l) => seq![l] + target(s.drop_first()),
            Edit::Add(l) => seq![l] + target(s.drop_first()),
            Edit::Remove(_) => target(s.drop_first()),
        }
    }
}

/// How many lines a script keeps.
pub open spec fn kept_count(s: Seq<Edit>) -> nat
    decreases s.len(),
{
    if s.len() == 0 {
        0
    } else {
        (if s[0] is Keep {
            1nat
        } else {
            0nat
        }) + kept_count(s.drop_first())
    }
}

/// A step with its direction turned round: an addition becomes a removal.
pub open spec fn swap_edit(e: Edit) -> Edit {
    match e {
        Edit::Keep(l) => Edit::Keep(l),
        Edit::Remove(l) => Edit::Add(l),
        Edit::Add(l) => Edit::Remove(l),
    }
}

/// A script with every step turned round.
pub open spec fn swapped(s: Seq<Edit>) -> Seq<Edit> {
    s.map_values(|e: Edit| swap_edit(e))
}

proof fn lemma_cons(e: Edit, s: Seq<Edit>)
    ensures
        (seq![e] + s).len() > 0,
        (seq![e] + s)[0] == e,
        (seq![e] + s).drop_first() == s,
{
    assert((seq![e] + s).drop_first() =~= s);
}

proof fn lemma_adds_read_nothing(b: Seq<Seq<char>>)
    ensures
        source(b.map_values(|l: Seq<char>| Edit::Add(l))) == Seq::<Seq<char>>::empty(),
        target(b.map_values(|l: Seq<char>| Edit::Add(l))) == b,
        kept_count(b.map_values(|l: Seq<char>| Edit::Add(l))) == 0,
    decreases b.len(),
{
    if b.len() > 0 {
        lemma_adds_unfold(b);
        lemma_cons(Edit::Add(b[0]), b.drop_first().map_values(|l: Seq<char>| Edit::Add(l)));
        lemma_adds_read_nothing(b.drop_first());
        assert(seq![b[0]] + b.drop_first() =~= b);
    } else {
        assert(b.map_values(|l: Seq<char>| Edit::Add(l)) =~= Seq::<Edit>::empty());
    }
}

proof fn lemma_removes_write_nothing(a: Seq<Seq<char>>)
    ensures
        source(a.map_values(|l: Seq<char>| Edit::Remove(l))) == a,
        target(a.map_values(|l: Seq<char>| Edit::Remove(l))) == Seq::<Seq<char>>::empty(),
        kept_count(a.map_values(|l: Seq<char>| Edit::Remove(l))) == 0,
    decreases a.len(),
{
    if a.len() > 0 {
        lemma_removes_unfold(a);
        lemma_cons(Edit::Remove(a[0]), a.drop_first().map_values(|l: Seq<char>| Edit::Remove(l)));
        lemma_removes_write_nothing(a.drop_first());
        assert(seq![a[0]] + a.drop_first() =~= a);
    } else {
        assert(a.map_values(|l: Seq<char>| Edit::Remove(l)) =~= Seq::<Edit>::empty());
    }
}

/// The script of `a` against `b` reads `a`, writes `b` and keeps a longest
/// common subsequence of the two.
pub proof fn lemma_script_sound(a: Seq<Seq<char>>, b: Seq<Seq<char>>)
    ensures
        source(script(a, b)) == a,
        target(script(a, b)) == b,
        kept_count(script(a, b)) == lcs(a, b),
    decreases a.len() + b.len(),
{
    if a.len() == 0 {
        lemma_adds_read_nothing(b);
        assert(a =~= Seq::<Seq<char>>::empty());
    } else if b.len() == 0 {
        lemma_removes_write_nothing(a);
        assert(b =~= Seq::<Seq<char>>::empty());
    } else {
        assert(seq![a[0]] + a.drop_first() =~= a);
        assert(seq![b[0]] + b.drop_first() =~= b);
        if a[0] == b[0] {
            lemma_script_sound(a.drop_first(), b.drop_first());
            lemma_cons(Edit::Keep(a[0]), script(a.drop_first(), b.drop_first()));
        } else if removes_first(a, b) {
            lemma_script_sound(a.drop_first(), b);
            lemma_cons(Edit::Remove(a[0]), script(a.drop_first(), b));
        } else {
            lemma_script_sound(a, b.drop_first());
            lemma_cons(Edit::Add(b[0]), script(a, b.drop_first()));
        }
    }
}

proof fn lemma_lcs_symmetric(a: Seq<Seq<char>>, b: Seq<Seq<char>>)
    ensures
        lcs(a, b) == lcs(b, a),
    decreases a.len() + b.len(),
{
    if a.len() > 0 && b.len() > 0 {
        lemma_lcs_symmetric(a.drop_first(), b.drop_first());
        lemma_lcs_symmetric(a.drop_first(), b);
        lemma_lcs_symmetric(a, b.drop_first());
    }
}

proof fn lemma_swapped_cons(e: Edit, s: Seq<Edit>)
    ensures
        swapped(seq![e] + s) == seq![swap_edit(e)] + swapped(s),
{
    assert(swapped(seq![e] + s) =~= seq![swap_edit(e)] + swapped(s));
}

/// Diffing the other way round gives the same edit script with every addition
/// marked as a removal and every removal as an addition, in the same order.
pub proof fn law_diff_symmetric(a: Seq<Seq<char>>, b: Seq<Seq<char>>)
    ensures
        script(b, a) == swapped(script(a, b)),
    decreases a.len() + b.len(),
{
    if a.len() == 0 {
        assert(script(b, a) =~= swapped(script(a, b)));
    } else if b.len() == 0 {
        assert(script(b, a) =~= swapped(script(a, b)));
    } else if a[0] == b[0] {
        law_diff_symmetric(a.drop_first(), b.drop_first());
        lemma_swapped_cons(Edit::Keep(a[0]), script(a.drop_first(), b.drop_first()));
    } else {
        lemma_lcs_symmetric(a.drop_first(), b);
        lemma_lcs_symmetric(a, b.drop_first());
        lemma_text_lt_total(a[0], b[0]);
        if removes_first(a, b) {
            law_diff_symmetric(a.drop_first(), b);
            lemma_swapped_cons(Edit::Remove(a[0]), script(a.drop_first(), b));
            assert(!removes_first(b, a));
        } else {
            law_diff_symmetric(a, b.drop_first());
            lemma_swapped_cons(Edit::Add(b[0]), script(a, b.drop_first()));
            assert(removes_first(b, a));
        }
    }
}

/// The report for the texts the other way round is the report of the
/// swapped script.
pub proof fn law_diff_report_symmetric(left: Seq<char>, right: Seq<char>)
    ensures
        diff_report(right, left) == report(swapped(script(lines_of(left), lines_of(right)))),
{
    law_diff_symmetric(lines_of(left), lines_of(right));
}

proof fn lemma_script_self(x: Seq<Seq<char>>)
    ensures
        !has_change(script(x, x)),
    decreases x.len(),
{
    if x.len() > 0 {
        lemma_script_self(x.drop_first());
        let rest = script(x.drop_first(), x.drop_first());
        let s = seq![Edit::Keep(x[0])] + rest;
        assert forall|i: int| 0 <= i < s.len() implies #[trigger] s[i] is Keep by {
            if i > 0 {
                assert(s[i] == rest[i - 1]);
                assert(!(rest[i - 1] is Keep) ==> has_change(rest));
            }
        }
    } else {
        assert(script(x, x) =~= Seq::<Edit>::empty());
    }
}

/// A text diffed against itself gives the empty report.
pub proof fn law_diff_reflexive(t: Seq<char>)
    ensures
        diff_report(t, t) == Seq::<char>::empty(),
{
    lemma_script_self(lines_of(t));
}

/// Walks the script of `a` against `b` and renders it.
#[verifier::rlimit(70)]
fn render_script(a: &Vec<String>, b: &Vec<String>) -> (r: String)
    ensures
        r@ == report(script(views(a@), views(b@))),
{
    let ghost va = views(a@);
    let ghost vb = views(b@);
    let rows = lcs_table(a, b);
    let n = a.len();
    let m = b.len();
    let mut out = String::new();
    let mut changed = false;
    let ghost mut done: Seq<Edit> = Seq::empty();
    let mut i: usize = 0;
    let mut j: usize = 0;
    proof {
        assert(tail(va, 0) =~= va);
        assert(tail(vb, 0) =~= vb);
        assert(done + script(va, vb) =~= script(va, vb));
        assert(out@ =~= script_text(done));
    }
    while i < n || j < m
        invariant
            n == a@.len(),
            m == b@.len(),
            i <= n,
            j <= m,
            va == views(a@),
            vb == views(b@),
            rows@.len() == n + 1,
            forall|r: int| 0 <= r <= n ==> #[trigger] rows@[r]@.len() == m + 1,
            forall|r: int, t: int|
                0 <= r <= n && 0 <= t <= m ==> #[trigger] rows@[r]@[t] as nat == lcs(
                    tail(va, n - r),
                    tail(vb, t),
                ),
            done + script(tail(va, i as int), tail(vb, j as int)) == script(va, vb),
            out@ == script_text(done),
            changed == has_change(done),
        decreases (n - i) + (m - j),
    {
        let ghost ta = tail(va, i as int);
        let ghost tb = tail(vb, j as int);
        let ghost before = done;
        let ghost e: Edit;
        if i == n {
            proof {
                lemma_adds_unfold(tb);
                assert(tb.drop_first() =~= tail(vb, j + 1));
                assert(ta.len() == 0);
                e = Edit::Add(b@[j as int]@);
            }
            out.append("+");
            out.append(b[j].as_str());
            out.append("\n");
            changed = true;
            j = j + 1;
        } else if j == m {
            proof {
                lemma_removes_unfold(ta);
                assert(ta.drop_first() =~= tail(va, i + 1));
                e = Edit::Remove(a@[i as int]@);
            }
            out.append("-");
            out.append(a[i].as_str());
            out.append("\n");
            changed = true;
            i = i + 1;
        } else {
            proof {
                assert(ta.drop_first() =~= tail(va, i + 1));
                assert(tb.drop_first() =~= tail(vb, j + 1));
                assert(ta[0] == a@[i as int]@);
                assert(tb[0] == b@[j as int]@);
                assert(n - (n - i - 1) == i + 1);
                assert(n - (n - i) == i);
            }
            if a[i] == b[j] {
                proof {
                    e = Edit::Keep(a@[i as int]@);
                }
                out.append(" ");
                out.append(a[i].as_str());
                out.append("\n");
                i = i + 1;
                j = j + 1;
            } else if rows[n - i - 1][j] > rows[n - i][j + 1] || (rows[n - i - 1][j]
                == rows[n - i][j + 1] && text_less(a[i].as_str(), b[j].as_str())) {
                proof {
                    e = Edit::Remove(a@[i as int]@);
                }
                out.append("-");
                out.append(a[i].as_str());
                out.append("\n");
                changed = true;
                i = i + 1;
            } else {
                proof {
                    e = Edit::Add(b@[j as int]@);
                }
                out.append("+");
                out.append(b[j].as_str());
                out.append("\n");
                changed = true;
                j = j + 1;
            }
        }
        proof {
            reveal_strlit("+");
            reveal_strlit("-");
            reveal_strlit(" ");
            reveal_strlit("\n");
            done = before.push(e);
            lemma_script_text_push(before, e);
            assert(before + (seq![e] + script(tail(va, i as int), tail(vb, j as int))) =~= done
                + script(tail(va, i as int), tail(vb, j as int)));
            assert(done[done.len() - 1] == e);
            if has_change(before) {
                let k = choose|k: int| 0 <= k < before.len() && !(#[trigger] before[k] is Keep);
                assert(done[k] == before[k]);
            }
            if has_change(done) {
                let k = choose|k: int| 0 <= k < done.len() && !(#[trigger] done[k] is Keep);
                if k < before.len() {
                    assert(done[k] == before[k]);
                }
            }
        }
    }
    proof {
        assert(tail(va, n as int) =~= Seq::<Seq<char>>::empty());
        assert(tail(vb, m as int) =~= Seq::<Seq<char>>::empty());
        assert(done =~= done + script(tail(va, n as int), tail(vb, m as int)));
    }
    if changed {
        out
    } else {
        String::new()
    }
}

/// The line diff of two texts: empty where their lines agree, else every line
/// of the edit script, kept lines after a space, removed ones after `-` and
/// added ones after `+`.
pub fn diff_text(text1: &str, text2: &str) -> (r: String)
    ensures
        r@ == diff_report(text1@, text2@),
{
    let a = split_lines(text1);
    let b = split_lines(text2);
    render_script(&a, &b)
}

} // verus!
