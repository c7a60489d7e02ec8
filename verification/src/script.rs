//! Edit scripts: the grouped operations that turn one list of lines into
//! another, and the test that decides whether a list of operations is one.

use vstd::prelude::*;
use vstd::string::*;

verus! {

/// What an operation does with the lines it spans.
#[derive(Clone, Copy, Debug, PartialEq, Eq)]
pub enum Tag {
    Equal,
    Insert,
    Delete,
    Replace,
}

/// One operation of an edit script: a half-open range of line indices in the
/// text before the change and one in the text after it.
#[derive(Clone, Copy, Debug, PartialEq, Eq)]
pub struct EditOp {
    pub tag: Tag,
    pub before_start: usize,
    pub before_end: usize,
    pub after_start: usize,
    pub after_end: usize,
}

impl DeepView for EditOp {
    type V = EditOp;

    open spec fn deep_view(&self) -> EditOp {
        *self
    }
}

/// An operation as an aligner reports it: the tag by its name, then the
/// start and end of the range before and of the range after.
pub type RawOp = (String, usize, usize, usize, usize);

impl Tag {
    /// The tag that a name stands for.
    pub open spec fn named(name: Seq<char>) -> Option<Tag> {
        if name == "equal"@ {
            Some(Tag::Equal)
        } else if name == "insert"@ {
            Some(Tag::Insert)
        } else if name == "delete"@ {
            Some(Tag::Delete)
        } else if name == "replace"@ {
            Some(Tag::Replace)
        } else {
            None
        }
    }

    /// Reads a tag from its name.
    pub fn parse(name: &String) -> (tag: Option<Tag>)
        ensures
            tag == Tag::named(name@),
    {
        if name.eq(&String::from_str("equal")) {
            Some(Tag::Equal)
        } else if name.eq(&String::from_str("insert")) {
            Some(Tag::Insert)
        } else if name.eq(&String::from_str("delete")) {
            Some(Tag::Delete)
        } else if name.eq(&String::from_str("replace")) {
            Some(Tag::Replace)
        } else {
            None
        }
    }
}

/// The operation that a reported one stands for, if its tag is known.
pub open spec fn op_named(raw: (Seq<char>, usize, usize, usize, usize)) -> Option<EditOp> {
    match Tag::named(raw.0) {
        Some(tag) => Some(
            EditOp {
                tag,
                before_start: raw.1,
                before_end: raw.2,
                after_start: raw.3,
                after_end: raw.4,
            },
        ),
        None => None,
    }
}

/// An operation stays inside both texts and does what its tag says: an equal
/// one spans the same lines on both sides, a delete spans lines before and
/// nothing after, an insert nothing before and lines after, a replacement
/// lines on both sides.
pub open spec fn op_ok(op: EditOp, before: Seq<Seq<char>>, after: Seq<Seq<char>>) -> bool {
    &&& op.before_start <= op.before_end <= before.len()
    &&& op.after_start <= op.after_end <= after.len()
    &&& match op.tag {
        Tag::Equal => before.subrange(op.before_start as int, op.before_end as int)
            == after.subrange(op.after_start as int, op.after_end as int),
        Tag::Delete => op.before_start < op.before_end && op.after_start == op.after_end,
        Tag::Insert => op.before_start == op.before_end && op.after_start < op.after_end,
        Tag::Replace => op.before_start < op.before_end && op.after_start < op.after_end,
    }
}

/// The operation at index `j` begins where the one before it ends, on both
/// sides.
pub open spec fn follows(group: Seq<EditOp>, j: int) -> bool {
    group[j - 1].before_end == group[j].before_start && group[j - 1].after_end
        == group[j].after_start
}

/// A group is a run of at least one operation without gaps.
pub open spec fn group_ok(group: Seq<EditOp>, before: Seq<Seq<char>>, after: Seq<Seq<char>>) -> bool {
    &&& group.len() > 0
    &&& forall|j: int| 0 <= j < group.len() ==> op_ok(#[trigger] group[j], before, after)
    &&& forall|j: int| 0 < j < group.len() ==> #[trigger] follows(group, j)
}

/// The groups from index `k` on continue a script whose last group ended at
/// line `pb` before and line `pa` after: the lines up to each group are the
/// same on both sides, and so are the lines after the last group. A group
/// other than the first begins after at least one such line.
pub open spec fn rest_ok(
    groups: Seq<Seq<EditOp>>,
    k: int,
    pb: int,
    pa: int,
    before: Seq<Seq<char>>,
    after: Seq<Seq<char>>,
) -> bool
    decreases groups.len() - k,
{
    if k >= groups.len() {
        &&& 0 <= pb <= before.len()
        &&& 0 <= pa <= after.len()
        &&& before.subrange(pb, before.len() as int) == after.subrange(pa, after.len() as int)
    } else {
        let g = groups[k];
        &&& group_ok(g, before, after)
        &&& 0 <= pb <= g[0].before_start
        &&& 0 <= pa <= g[0].after_start
        &&& k > 0 ==> pb < g[0].before_start
        &&& before.subrange(pb, g[0].before_start as int) == after.subrange(
            pa,
            g[0].after_start as int,
        )
        &&& rest_ok(groups, k + 1, g.last().before_end as int, g.last().after_end as int, before, after)
    }
}

/// The groups are an edit script from `before` to `after`: what they leave
/// out is the same on both sides, and texts with the same lines have no
/// groups at all.
pub open spec fn script_ok(
    groups: Seq<Seq<EditOp>>,
    before: Seq<Seq<char>>,
    after: Seq<Seq<char>>,
) -> bool {
    &&& rest_ok(groups, 0, 0, 0, before, after)
    &&& before == after ==> groups.len() == 0
}

/// The number of lines that an operation spans before the change.
pub open spec fn op_len(op: EditOp) -> int {
    op.before_end - op.before_start
}

/// The group holds an operation that changes something.
pub open spec fn has_change(group: Seq<EditOp>) -> bool {
    exists|j: int| 0 <= j < group.len() && (#[trigger] group[j]).tag != Tag::Equal
}

/// Where the operation at index `j` of the group at index `k` is an equal
/// one, it is context of the right size for `n` lines of context, and no
/// equal operation stands before it. At an end of its group it spans `n`
/// lines, or fewer where the text begins or ends there; inside its group it
/// spans no more than twice `n` lines.
pub open spec fn context_at(
    groups: Seq<Seq<EditOp>>,
    k: int,
    j: int,
    n: nat,
    line_count: nat,
) -> bool {
    let group = groups[k];
    let op = group[j];
    op.tag == Tag::Equal ==> if j == 0 {
        op_len(op) <= n && (op_len(op) == n || (k == 0 && op.before_start == 0))
    } else if j == group.len() - 1 {
        &&& group[j - 1].tag != Tag::Equal
        &&& op_len(op) <= n
        &&& op_len(op) == n || (k == groups.len() - 1 && op.before_end == line_count)
    } else {
        group[j - 1].tag != Tag::Equal && op_len(op) <= 2 * n
    }
}

/// The group at index `k` is a hunk with `n` lines of context: it changes
/// something, and its equal operations are context of the right size. It
/// begins with context, unless it is the first group and begins with the
/// text; it ends with context, unless it is the last group and ends with
/// the text.
pub open spec fn group_context_ok(groups: Seq<Seq<EditOp>>, k: int, n: nat, line_count: nat) -> bool {
    let group = groups[k];
    &&& has_change(group)
    &&& group[0].tag != Tag::Equal ==> k == 0 && group[0].before_start == 0
    &&& group.last().tag != Tag::Equal ==> k == groups.len() - 1 && group.last().before_end
        == line_count
    &&& forall|j: int| 0 <= j < group.len() ==> #[trigger] context_at(groups, k, j, n, line_count)
}

/// The groups are hunks with `n` lines of context in a text of
/// `line_count` lines. Together with the lines between two groups, which
/// are unchanged and at least one, this says that changes lie in one group
/// where no more than twice `n` unchanged lines part them, and in two
/// groups where more do.
pub open spec fn context_ok(groups: Seq<Seq<EditOp>>, n: nat, line_count: nat) -> bool {
    forall|k: int| 0 <= k < groups.len() ==> #[trigger] group_context_ok(groups, k, n, line_count)
}

/// The groups are an edit script from `before` to `after`, grouped with `n`
/// lines of context.
pub open spec fn grouped_ok(
    groups: Seq<Seq<EditOp>>,
    n: nat,
    before: Seq<Seq<char>>,
    after: Seq<Seq<char>>,
) -> bool {
    script_ok(groups, before, after) && context_ok(groups, n, before.len())
}

/// The script that replaces the whole text in one operation, and has no
/// group where the lines are the same.
pub open spec fn whole_text(before: Seq<Seq<char>>, after: Seq<Seq<char>>) -> Seq<Seq<EditOp>> {
    if before == after {
        Seq::empty()
    } else {
        seq![
            seq![
                EditOp {
                    tag: if before.len() == 0 {
                        Tag::Insert
                    } else if after.len() == 0 {
                        Tag::Delete
                    } else {
                        Tag::Replace
                    },
                    before_start: 0,
                    before_end: before.len() as usize,
                    after_start: 0,
                    after_end: after.len() as usize,
                },
            ],
        ]
    }
}

/// The groups that reported ones stand for, if every tag is known.
pub open spec fn groups_named(raw: Seq<Seq<(Seq<char>, usize, usize, usize, usize)>>) -> Option<
    Seq<Seq<EditOp>>,
> {
    if forall|k: int, j: int|
        0 <= k < raw.len() && 0 <= j < raw[k].len() ==> op_named(#[trigger] raw[k][j]) is Some {
        Some(Seq::new(raw.len(), |k: int| Seq::new(raw[k].len(), |j: int| op_named(raw[k][j])->0)))
    } else {
        None
    }
}

/// What is made of a reported script: itself where it is an edit script
/// between the two texts, grouped with `n` lines of context, and the
/// replacement of the whole text where it is not.
pub open spec fn accepted(
    raw: Seq<Seq<(Seq<char>, usize, usize, usize, usize)>>,
    n: nat,
    before: Seq<Seq<char>>,
    after: Seq<Seq<char>>,
) -> Seq<Seq<EditOp>> {
    match groups_named(raw) {
        Some(groups) => if grouped_ok(groups, n, before, after) {
            groups
        } else {
            whole_text(before, after)
        },
        None => whole_text(before, after),
    }
}

/// In a group every operation lies between the start of the first and the
/// end of the last.
pub proof fn lemma_group_span(
    group: Seq<EditOp>,
    before: Seq<Seq<char>>,
    after: Seq<Seq<char>>,
    j: int,
)
    requires
        group_ok(group, before, after),
        0 <= j < group.len(),
    ensures
        group[0].before_start <= group[j].before_start <= group[j].before_end
            <= group.last().before_end <= before.len(),
        group[0].after_start <= group[j].after_start <= group[j].after_end
            <= group.last().after_end <= after.len(),
{
    lemma_group_chain(group, before, after, 0, j);
    lemma_group_chain(group, before, after, j, group.len() - 1);
}

/// In a group an operation ends no later than a later one begins or ends.
proof fn lemma_group_chain(
    group: Seq<EditOp>,
    before: Seq<Seq<char>>,
    after: Seq<Seq<char>>,
    i: int,
    j: int,
)
    requires
        group_ok(group, before, after),
        0 <= i <= j < group.len(),
    ensures
        group[i].before_start <= group[j].before_start,
        group[i].before_end <= group[j].before_end,
        group[i].after_start <= group[j].after_start,
        group[i].after_end <= group[j].after_end,
        group[j].before_start <= group[j].before_end <= before.len(),
        group[j].after_start <= group[j].after_end <= after.len(),
    decreases j - i,
{
    assert(op_ok(group[j], before, after));
    if i < j {
        lemma_group_chain(group, before, after, i, j - 1);
        assert(op_ok(group[j - 1], before, after));
        assert(follows(group, j));
    }
}

/// From any group of a script on, the groups lie inside the text, each
/// after the place where the script stood before it, and a later group
/// begins after an earlier one ends.
pub proof fn lemma_rest_order(
    groups: Seq<Seq<EditOp>>,
    k: int,
    pb: int,
    pa: int,
    before: Seq<Seq<char>>,
    after: Seq<Seq<char>>,
)
    requires
        0 <= k,
        rest_ok(groups, k, pb, pa, before, after),
    ensures
        forall|j: int|
            k <= j < groups.len() ==> group_ok(#[trigger] groups[j], before, after) && pb
                <= groups[j][0].before_start && pa <= groups[j][0].after_start && (j > 0 ==> pb
                < groups[j][0].before_start),
        forall|i: int, j: int|
            k <= i < j < groups.len() ==> (#[trigger] groups[i]).last().before_end < (
            #[trigger] groups[j])[0].before_start && groups[i].last().after_end
                <= groups[j][0].after_start,
    decreases groups.len() - k,
{
    if k < groups.len() {
        let g = groups[k];
        lemma_group_span(g, before, after, 0);
        lemma_rest_order(
            groups,
            k + 1,
            g.last().before_end as int,
            g.last().after_end as int,
            before,
            after,
        );
        assert forall|j: int| k < j < groups.len() implies pb < (#[trigger] groups[j])[0].before_start
            && pa <= groups[j][0].after_start by {}
    }
}

/// A list of operations is its own view.
pub proof fn lemma_group_view(group: Vec<EditOp>)
    ensures
        group.deep_view() == group@,
{
    assert(group.deep_view() =~= group@);
}

/// Whether two ranges of lines hold the same lines.
pub fn same_lines(
    before: &Vec<String>,
    before_start: usize,
    before_end: usize,
    after: &Vec<String>,
    after_start: usize,
    after_end: usize,
) -> (same: bool)
    requires
        before_start <= before_end <= before.len(),
        after_start <= after_end <= after.len(),
    ensures
        same == (before.deep_view().subrange(before_start as int, before_end as int)
            == after.deep_view().subrange(after_start as int, after_end as int)),
{
    let ghost left = before.deep_view().subrange(before_start as int, before_end as int);
    let ghost right = after.deep_view().subrange(after_start as int, after_end as int);
    let count = before_end - before_start;
    if count != after_end - after_start {
        assert(left.len() != right.len());
        return false;
    }
    let mut i: usize = 0;
    while i < count
        invariant
            i <= count,
            count == before_end - before_start,
            count == after_end - after_start,
            before_end <= before.len(),
            after_end <= after.len(),
            left == before.deep_view().subrange(before_start as int, before_end as int),
            right == after.deep_view().subrange(after_start as int, after_end as int),
            forall|j: int| 0 <= j < i ==> left[j] == right[j],
        decreases count - i,
    {
        if !before[before_start + i].eq(&after[after_start + i]) {
            assert(left[i as int] != right[i as int]);
            return false;
        }
        i += 1;
    }
    assert(left =~= right);
    true
}

/// Whether an operation stays inside both texts and does what its tag says.
pub fn check_op(op: &EditOp, before: &Vec<String>, after: &Vec<String>) -> (ok: bool)
    ensures
        ok == op_ok(*op, before.deep_view(), after.deep_view()),
{
    if !(op.before_start <= op.before_end && op.before_end <= before.len()) {
        return false;
    }
    if !(op.after_start <= op.after_end && op.after_end <= after.len()) {
        return false;
    }
    match op.tag {
        Tag::Equal => same_lines(
            before,
            op.before_start,
            op.before_end,
            after,
            op.after_start,
            op.after_end,
        ),
        Tag::Delete => op.before_start < op.before_end && op.after_start == op.after_end,
        Tag::Insert => op.before_start == op.before_end && op.after_start < op.after_end,
        Tag::Replace => op.before_start < op.before_end && op.after_start < op.after_end,
    }
}

/// Whether a list of operations is a group of a script between the texts.
pub fn check_group(group: &Vec<EditOp>, before: &Vec<String>, after: &Vec<String>) -> (ok: bool)
    ensures
        ok == group_ok(group@, before.deep_view(), after.deep_view()),
{
    if group.len() == 0 {
        return false;
    }
    let mut j: usize = 0;
    while j < group.len()
        invariant
            j <= group.len(),
            forall|i: int| 0 <= i < j ==> op_ok(#[trigger] group@[i], before.deep_view(), after.deep_view()),
            forall|i: int| 0 < i < j ==> #[trigger] follows(group@, i),
        decreases group.len() - j,
    {
        if !check_op(&group[j], before, after) {
            return false;
        }
        if j > 0 {
            let prev = &group[j - 1];
            let next = &group[j];
            if !(prev.before_end == next.before_start && prev.after_end == next.after_start) {
                assert(!follows(group@, j as int));
                return false;
            }
        }
        j += 1;
    }
    true
}

/// The view of a list of groups holds the view of each group.
pub proof fn lemma_groups_view(groups: Vec<Vec<EditOp>>, k: int)
    requires
        0 <= k < groups.len(),
    ensures
        groups.deep_view()[k] == groups@[k]@,
{
    lemma_group_view(groups@[k]);
}

/// Whether a list of groups is an edit script between the two texts.
pub fn check_script(groups: &Vec<Vec<EditOp>>, before: &Vec<String>, after: &Vec<String>) -> (ok:
    bool)
    ensures
        ok == script_ok(groups.deep_view(), before.deep_view(), after.deep_view()),
{
    let ghost all = groups.deep_view();
    let ghost b = before.deep_view();
    let ghost a = after.deep_view();
    let mut pb: usize = 0;
    let mut pa: usize = 0;
    let mut k: usize = 0;
    while k < groups.len()
        invariant
            k <= groups.len(),
            all == groups.deep_view(),
            b == before.deep_view(),
            a == after.deep_view(),
            pb <= before.len(),
            pa <= after.len(),
            rest_ok(all, 0, 0, 0, b, a) == rest_ok(all, k as int, pb as int, pa as int, b, a),
        decreases groups.len() - k,
    {
        let group = &groups[k];
        proof {
            lemma_groups_view(*groups, k as int);
        }
        if !check_group(group, before, after) {
            return false;
        }
        let first = &group[0];
        let last = &group[group.len() - 1];
        if !(pb <= first.before_start && pa <= first.after_start) {
            return false;
        }
        if k > 0 && pb == first.before_start {
            return false;
        }
        if !same_lines(before, pb, first.before_start, after, pa, first.after_start) {
            return false;
        }
        pb = last.before_end;
        pa = last.after_end;
        k += 1;
    }
    if !same_lines(before, pb, before.len(), after, pa, after.len()) {
        return false;
    }
    if groups.len() > 0 {
        let same = same_lines(before, 0, before.len(), after, 0, after.len());
        proof {
            assert(b.subrange(0, b.len() as int) =~= b);
            assert(a.subrange(0, a.len() as int) =~= a);
        }
        if same {
            return false;
        }
    }
    true
}

/// Whether the group holds an operation that changes something.
fn group_has_change(group: &Vec<EditOp>) -> (found: bool)
    ensures
        found == has_change(group@),
{
    let mut j: usize = 0;
    while j < group.len()
        invariant
            j <= group.len(),
            forall|i: int| 0 <= i < j ==> (#[trigger] group@[i]).tag == Tag::Equal,
        decreases group.len() - j,
    {
        match group[j].tag {
            Tag::Equal => {},
            _ => {
                assert(group@[j as int].tag != Tag::Equal);
                return true;
            },
        }
        j += 1;
    }
    false
}

/// Whether an operation is an equal one.
fn is_equal(op: &EditOp) -> (equal: bool)
    ensures
        equal == (op.tag == Tag::Equal),
{
    match op.tag {
        Tag::Equal => true,
        _ => false,
    }
}

/// Whether the group at index `k` is a hunk with `n` lines of context.
fn check_group_context(groups: &Vec<Vec<EditOp>>, k: usize, n: usize, line_count: usize) -> (ok:
    bool)
    requires
        k < groups.len(),
        groups@[k as int]@.len() > 0,
        forall|j: int|
            0 <= j < groups@[k as int]@.len() ==> (#[trigger] groups@[k as int]@[j]).before_start
                <= groups@[k as int]@[j].before_end,
    ensures
        ok == group_context_ok(groups.deep_view(), k as int, n as nat, line_count as nat),
{
    let ghost all = groups.deep_view();
    let group = &groups[k];
    proof {
        lemma_groups_view(*groups, k as int);
    }
    if !group_has_change(group) {
        return false;
    }
    let first = &group[0];
    if !is_equal(first) && !(k == 0 && first.before_start == 0) {
        return false;
    }
    let last = &group[group.len() - 1];
    if !is_equal(last) && !(k == groups.len() - 1 && last.before_end == line_count) {
        return false;
    }
    let mut j: usize = 0;
    while j < group.len()
        invariant
            j <= group.len(),
            k < groups.len(),
            all == groups.deep_view(),
            all[k as int] == group@,
            forall|i: int|
                0 <= i < group@.len() ==> (#[trigger] group@[i]).before_start <= group@[i].before_end,
            forall|i: int|
                0 <= i < j ==> #[trigger] context_at(all, k as int, i, n as nat, line_count as nat),
        decreases group.len() - j,
    {
        let op = &group[j];
        assert(group@[j as int].before_start <= group@[j as int].before_end);
        if is_equal(op) {
            let len = op.before_end - op.before_start;
            let ok = if j == 0 {
                len <= n && (len == n || (k == 0 && op.before_start == 0))
            } else if j == group.len() - 1 {
                !is_equal(&group[j - 1]) && len <= n && (len == n || (k == groups.len() - 1
                    && op.before_end == line_count))
            } else {
                !is_equal(&group[j - 1]) && (len <= n || len - n <= n)
            };
            if !ok {
                assert(!context_at(all, k as int, j as int, n as nat, line_count as nat));
                return false;
            }
        }
        j += 1;
    }
    true
}

/// Whether the groups of a script are hunks with `n` lines of context.
pub fn check_context(
    groups: &Vec<Vec<EditOp>>,
    n: usize,
    before: &Vec<String>,
    after: &Vec<String>,
) -> (ok: bool)
    requires
        script_ok(groups.deep_view(), before.deep_view(), after.deep_view()),
    ensures
        ok == context_ok(groups.deep_view(), n as nat, before.len() as nat),
{
    let ghost all = groups.deep_view();
    let ghost b = before.deep_view();
    let ghost a = after.deep_view();
    proof {
        lemma_rest_order(all, 0, 0, 0, b, a);
    }
    let mut k: usize = 0;
    while k < groups.len()
        invariant
            k <= groups.len(),
            all == groups.deep_view(),
            forall|i: int| 0 <= i < all.len() ==> group_ok(#[trigger] all[i], b, a),
            forall|i: int|
                0 <= i < k ==> #[trigger] group_context_ok(
                    all,
                    i,
                    n as nat,
                    before.len() as nat,
                ),
        decreases groups.len() - k,
    {
        proof {
            lemma_groups_view(*groups, k as int);
            let group = all[k as int];
            assert(group_ok(group, b, a));
            assert forall|j: int| 0 <= j < group.len() implies (#[trigger] group[j]).before_start
                <= group[j].before_end by {
                assert(op_ok(group[j], b, a));
            }
        }
        if !check_group_context(groups, k, n, before.len()) {
            return false;
        }
        k += 1;
    }
    true
}

/// Builds the script that replaces the whole text in one operation.
pub fn replace_whole_text(before: &Vec<String>, after: &Vec<String>) -> (groups: Vec<Vec<EditOp>>)
    ensures
        groups.deep_view() == whole_text(before.deep_view(), after.deep_view()),
{
    let ghost b = before.deep_view();
    let ghost a = after.deep_view();
    let same = same_lines(before, 0, before.len(), after, 0, after.len());
    proof {
        assert(b.subrange(0, b.len() as int) =~= b);
        assert(a.subrange(0, a.len() as int) =~= a);
    }
    let mut groups: Vec<Vec<EditOp>> = Vec::new();
    if same {
        assert(groups.deep_view() =~= whole_text(b, a));
        return groups;
    }
    let tag = if before.len() == 0 {
        Tag::Insert
    } else if after.len() == 0 {
        Tag::Delete
    } else {
        Tag::Replace
    };
    let op = EditOp {
        tag,
        before_start: 0,
        before_end: before.len(),
        after_start: 0,
        after_end: after.len(),
    };
    let mut group: Vec<EditOp> = Vec::new();
    group.push(op);
    groups.push(group);
    proof {
        lemma_groups_view(groups, 0);
        assert(groups@[0]@ =~= seq![op]);
        assert(groups.deep_view() =~= whole_text(b, a));
    }
    groups
}

/// Replacing the whole text is an edit script between any two texts, with
/// any number of lines of context.
pub proof fn lemma_whole_text_ok(before: Seq<Seq<char>>, after: Seq<Seq<char>>, n: nat)
    requires
        before.len() <= usize::MAX,
        after.len() <= usize::MAX,
    ensures
        grouped_ok(whole_text(before, after), n, before, after),
{
    let groups = whole_text(before, after);
    if before == after {
        assert(before.subrange(0, before.len() as int) =~= after.subrange(0, after.len() as int));
    } else {
        let g = groups[0];
        if before.len() == 0 && after.len() == 0 {
            assert(before =~= after);
        }
        assert(op_ok(g[0], before, after));
        assert(g[0].tag != Tag::Equal);
        assert(has_change(g));
        assert(context_at(groups, 0, 0, n, before.len()));
        assert(group_context_ok(groups, 0, n, before.len()));
        assert(before.subrange(0, 0) =~= after.subrange(0, 0));
        assert(before.subrange(before.len() as int, before.len() as int) =~= after.subrange(
            after.len() as int,
            after.len() as int,
        ));
        assert(group_ok(g, before, after));
        assert(rest_ok(groups, 1, before.len() as int, after.len() as int, before, after));
    }
}

/// Reads the operations of one reported group.
fn parse_group(raw: &Vec<RawOp>) -> (group: Option<Vec<EditOp>>)
    ensures
        match group {
            Some(ops) => ops@.len() == raw.len() && forall|j: int|
                0 <= j < raw.len() ==> op_named(#[trigger] raw.deep_view()[j]) == Some(ops@[j]),
            None => exists|j: int| 0 <= j < raw.len() && op_named(#[trigger] raw.deep_view()[j]) is None,
        },
{
    let mut ops: Vec<EditOp> = Vec::new();
    let mut j: usize = 0;
    while j < raw.len()
        invariant
            j <= raw.len(),
            ops@.len() == j,
            forall|i: int| 0 <= i < j ==> op_named(#[trigger] raw.deep_view()[i]) == Some(ops@[i]),
        decreases raw.len() - j,
    {
        let item = &raw[j];
        assert(raw.deep_view()[j as int] == (item.0@, item.1, item.2, item.3, item.4));
        match Tag::parse(&item.0) {
            Some(tag) => {
                ops.push(
                    EditOp {
                        tag,
                        before_start: item.1,
                        before_end: item.2,
                        after_start: item.3,
                        after_end: item.4,
                    },
                );
            },
            None => {
                return None;
            },
        }
        j += 1;
    }
    Some(ops)
}

/// Reads the groups of a reported script.
pub fn parse_groups(raw: &Vec<Vec<RawOp>>) -> (groups: Option<Vec<Vec<EditOp>>>)
    ensures
        match groups {
            Some(read) => groups_named(raw.deep_view()) == Some(read.deep_view()),
            None => groups_named(raw.deep_view()) is None,
        },
{
    let ghost named = raw.deep_view();
    let mut read: Vec<Vec<EditOp>> = Vec::new();
    let mut k: usize = 0;
    while k < raw.len()
        invariant
            k <= raw.len(),
            named == raw.deep_view(),
            read@.len() == k,
            forall|i: int, j: int|
                0 <= i < k && 0 <= j < named[i].len() ==> op_named(#[trigger] named[i][j]) is Some,
            forall|i: int|
                0 <= i < k ==> (#[trigger] read@[i])@ == Seq::new(
                    named[i].len(),
                    |j: int| op_named(named[i][j])->0,
                ),
        decreases raw.len() - k,
    {
        assert(named[k as int] == raw@[k as int].deep_view());
        match parse_group(&raw[k]) {
            Some(ops) => {
                assert(ops@ =~= Seq::new(named[k as int].len(), |j: int| op_named(named[k as int][j])->0));
                read.push(ops);
            },
            None => {
                let ghost j = choose|j: int|
                    0 <= j < raw@[k as int].len() && op_named(
                        #[trigger] raw@[k as int].deep_view()[j],
                    ) is None;
                assert(op_named(named[k as int][j]) is None);
                return None;
            },
        }
        k += 1;
    }
    proof {
        assert forall|i: int| 0 <= i < read.len() implies read.deep_view()[i] == Seq::new(
            named[i].len(),
            |j: int| op_named(named[i][j])->0,
        ) by {
            lemma_groups_view(read, i);
        }
        assert(read.deep_view() =~= groups_named(named)->0);
    }
    Some(read)
}

/// An edit script together with the two texts it lies between and the
/// number of context lines it is grouped with. Every value of this type is
/// a script between its texts, grouped with that many lines of context.
pub struct EditScript {
    before: Vec<String>,
    after: Vec<String>,
    context: usize,
    groups: Vec<Vec<EditOp>>,
}

/// What an `EditScript` holds: the lines before, the lines after, the
/// number of context lines and the groups of operations.
pub struct ScriptView {
    pub before: Seq<Seq<char>>,
    pub after: Seq<Seq<char>>,
    pub context: nat,
    pub groups: Seq<Seq<EditOp>>,
}

impl View for EditScript {
    type V = ScriptView;

    closed spec fn view(&self) -> ScriptView {
        ScriptView {
            before: self.before.deep_view(),
            after: self.after.deep_view(),
            context: self.context as nat,
            groups: self.groups.deep_view(),
        }
    }
}

impl EditScript {
    #[verifier::type_invariant]
    spec fn is_script(self) -> bool {
        grouped_ok(
            self.groups.deep_view(),
            self.context as nat,
            self.before.deep_view(),
            self.after.deep_view(),
        )
    }

    /// Takes a reported script as it is where it is an edit script between
    /// the two texts, grouped with `context` lines of context, and replaces
    /// the whole text where it is not.
    pub fn from_raw(
        before: Vec<String>,
        after: Vec<String>,
        context: usize,
        raw: Vec<Vec<RawOp>>,
    ) -> (script: EditScript)
        ensures
            script@.before == before.deep_view(),
            script@.after == after.deep_view(),
            script@.context == context,
            script@.groups == accepted(
                raw.deep_view(),
                context as nat,
                before.deep_view(),
                after.deep_view(),
            ),
            grouped_ok(script@.groups, script@.context, script@.before, script@.after),
    {
        proof {
            assert(before.deep_view().len() == before.len());
            assert(after.deep_view().len() == after.len());
            lemma_whole_text_ok(before.deep_view(), after.deep_view(), context as nat);
        }
        match parse_groups(&raw) {
            Some(groups) => {
                if check_script(&groups, &before, &after) && check_context(
                    &groups,
                    context,
                    &before,
                    &after,
                ) {
                    EditScript { before, after, context, groups }
                } else {
                    let groups = replace_whole_text(&before, &after);
                    EditScript { before, after, context, groups }
                }
            },
            None => {
                let groups = replace_whole_text(&before, &after);
                EditScript { before, after, context, groups }
            },
        }
    }

    /// The number of context lines that the script is grouped with.
    pub fn context(&self) -> (context: usize)
        ensures
            context == self@.context,
    {
        self.context
    }

    /// The lines of the text before the change.
    pub fn before(&self) -> (lines: &Vec<String>)
        ensures
            lines.deep_view() == self@.before,
    {
        &self.before
    }

    /// The lines of the text after the change.
    pub fn after(&self) -> (lines: &Vec<String>)
        ensures
            lines.deep_view() == self@.after,
    {
        &self.after
    }

    /// The groups of operations, which are an edit script between the
    /// texts, grouped with the script's number of context lines.
    pub fn groups(&self) -> (groups: &Vec<Vec<EditOp>>)
        ensures
            groups.deep_view() == self@.groups,
            grouped_ok(self@.groups, self@.context, self@.before, self@.after),
    {
        proof {
            use_type_invariant(self);
        }
        &self.groups
    }
}

} // verus!
