//! The layout of a notification: a tree of blocks, each hooked onto its parent, and the
//! criteria that decide which blocks a notification shows.
use vstd::prelude::*;
use crate::chars::string_from_chars;
use crate::config::{AnchorPosition, Error};
use crate::notification::{default_key, has_key, other_entries, Notification};

verus! {

/// A condition on a notification that decides whether a block is drawn.
#[derive(Debug)]
pub enum RenderCriteria {
    Summary,
    Body,
    HintImage,
    AppImage,
    AppName(String),
    Progress,
    ActionDefault,
    ActionOther(usize),
    And(Vec<RenderCriteria>),
    Or(Vec<RenderCriteria>),
}

/// Whether `c` holds of notification `n`: the summary or body is not empty, the image is
/// there, the application has that name, there is a progress value, there is a default
/// action, there are more than `i` other actions; `And` when all its criteria hold, `Or` when
/// one does.
pub open spec fn criteria_matches(c: RenderCriteria, n: Notification) -> bool
    decreases c,
{
    match c {
        RenderCriteria::Summary => n.summary@.len() > 0,
        RenderCriteria::Body => n.body@.len() > 0,
        RenderCriteria::HintImage => n.has_hint_image,
        RenderCriteria::AppImage => n.has_app_image,
        RenderCriteria::AppName(name) => n.app_name@ == name@,
        RenderCriteria::Progress => n.value is Some,
        RenderCriteria::ActionDefault => has_key(n.action_entries(), default_key()),
        RenderCriteria::ActionOther(i) => i < other_entries(n.action_entries()).len(),
        RenderCriteria::And(cs) => all_match(cs@, n),
        RenderCriteria::Or(cs) => any_match(cs@, n),
    }
}

/// Whether every criterion of `cs` holds of `n`.
pub open spec fn all_match(cs: Seq<RenderCriteria>, n: Notification) -> bool
    decreases cs,
{
    if cs.len() == 0 {
        true
    } else {
        all_match(cs.drop_last(), n) && criteria_matches(cs.last(), n)
    }
}

/// Whether some criterion of `cs` holds of `n`.
pub open spec fn any_match(cs: Seq<RenderCriteria>, n: Notification) -> bool
    decreases cs,
{
    if cs.len() == 0 {
        false
    } else {
        any_match(cs.drop_last(), n) || criteria_matches(cs.last(), n)
    }
}

/// Whether criterion `c` holds of `notification`; see [`criteria_matches`].
pub fn criteria_holds(c: &RenderCriteria, notification: &Notification) -> (b: bool)
    ensures
        b == criteria_matches(*c, *notification),
    decreases c,
{
    match c {
        RenderCriteria::Summary => !notification.summary.as_str().is_empty(),
        RenderCriteria::Body => !notification.body.as_str().is_empty(),
        RenderCriteria::HintImage => notification.has_hint_image,
        RenderCriteria::AppImage => notification.has_app_image,
        RenderCriteria::AppName(name) => notification.app_name == *name,
        RenderCriteria::Progress => notification.value.is_some(),
        RenderCriteria::ActionDefault => notification.get_default_action().is_some(),
        RenderCriteria::ActionOther(i) => notification.get_other_action(*i).is_some(),
        RenderCriteria::And(cs) => {
            let mut result = true;
            let mut k: usize = 0;
            proof {
                assert(cs@.take(0) =~= Seq::<RenderCriteria>::empty());
            }
            while k < cs.len()
                invariant
                    *c == RenderCriteria::And(*cs),
                    0 <= k <= cs@.len(),
                    result == all_match(cs@.take(k as int), *notification),
                decreases cs@.len() - k,
            {
                proof {
                    assert(cs@.take(k + 1).drop_last() =~= cs@.take(k as int));
                }
                proof {
                    assert(decreases_to!(*c => (*c)->And_0));
                    assert(decreases_to!(*cs => cs@));
                    assert(decreases_to!(cs@ => cs@[k as int]));
                    assert(decreases_to!(*c => cs@[k as int]));
                }
                let m = criteria_holds(&cs[k], notification);
                result = result && m;
                k += 1;
            }
            proof {
                assert(cs@.take(k as int) =~= cs@);
            }
            result
        },
        RenderCriteria::Or(cs) => {
            let mut result = false;
            let mut k: usize = 0;
            proof {
                assert(cs@.take(0) =~= Seq::<RenderCriteria>::empty());
            }
            while k < cs.len()
                invariant
                    *c == RenderCriteria::Or(*cs),
                    0 <= k <= cs@.len(),
                    result == any_match(cs@.take(k as int), *notification),
                decreases cs@.len() - k,
            {
                proof {
                    assert(cs@.take(k + 1).drop_last() =~= cs@.take(k as int));
                }
                proof {
                    assert(decreases_to!(*c => (*c)->Or_0));
                    assert(decreases_to!(*cs => cs@));
                    assert(decreases_to!(cs@ => cs@[k as int]));
                    assert(decreases_to!(*c => cs@[k as int]));
                }
                let m = criteria_holds(&cs[k], notification);
                result = result || m;
                k += 1;
            }
            proof {
                assert(cs@.take(k as int) =~= cs@);
            }
            result
        },
    }
}


/// How a block attaches to its parent: which point of the parent's rectangle meets which
/// point of its own.
#[derive(Debug, Clone, Copy, PartialEq, Eq, Structural)]
pub struct Hook {
    pub parent_anchor: AnchorPosition,
    pub self_anchor: AnchorPosition,
}

/// What kind of element a block draws.
#[derive(Debug, Clone, Copy, PartialEq, Eq, Structural)]
pub enum LayoutElementKind {
    NotificationBlock,
    TextBlock,
    ScrollingTextBlock,
    ImageBlock,
    ButtonBlock,
    ProgressBlock,
}

/// A block of a layout: its name, the name of its parent, how it hooks onto the parent,
/// what it draws (`kind`, with the drawing parameters in `params`), when it is drawn, and
/// its children.
#[derive(Debug)]
pub struct LayoutBlock<P> {
    pub name: String,
    pub parent: String,
    pub hook: Hook,
    pub kind: LayoutElementKind,
    pub params: P,
    pub render_criteria: Vec<RenderCriteria>,
    pub render_anti_criteria: Vec<RenderCriteria>,
    pub children: Vec<LayoutBlock<P>>,
}

/// Whether a block with these criteria is drawn for `n`: when it has no criteria or one of
/// them holds, and none of its anti-criteria holds.
pub open spec fn criteria_allow(
    criteria: Seq<RenderCriteria>,
    anti: Seq<RenderCriteria>,
    n: Notification,
) -> bool {
    (criteria.len() == 0 || any_match(criteria, n)) && !any_match(anti, n)
}

/// Whether block `b` is drawn for `n`.
pub open spec fn block_draws<P>(b: LayoutBlock<P>, n: Notification) -> bool {
    criteria_allow(b.render_criteria@, b.render_anti_criteria@, n)
}

fn any_holds(cs: &Vec<RenderCriteria>, notification: &Notification) -> (b: bool)
    ensures
        b == any_match(cs@, *notification),
{
    let mut result = false;
    let mut k: usize = 0;
    proof {
        assert(cs@.take(0) =~= Seq::<RenderCriteria>::empty());
    }
    while k < cs.len()
        invariant
            0 <= k <= cs@.len(),
            result == any_match(cs@.take(k as int), *notification),
        decreases cs@.len() - k,
    {
        proof {
            assert(cs@.take(k + 1).drop_last() =~= cs@.take(k as int));
        }
        let m = criteria_holds(&cs[k], notification);
        result = result || m;
        k += 1;
    }
    proof {
        assert(cs@.take(k as int) =~= cs@);
    }
    result
}

impl<P> LayoutBlock<P> {
    /// Whether this block is drawn for `notification`: when it has no render criteria or one
    /// of them holds, and none of its anti-criteria holds; anti-criteria take priority.
    pub fn should_draw(&self, notification: &Notification) -> (b: bool)
        ensures
            b == block_draws(*self, *notification),
    {
        let render_criteria_matches = if self.render_criteria.len() == 0 {
            true
        } else {
            any_holds(&self.render_criteria, notification)
        };
        let render_anti_criteria_matches = any_holds(&self.render_anti_criteria, notification);
        render_criteria_matches && !render_anti_criteria_matches
    }
}

/// Whether a notification gets a window of layout `root`: the root block is drawn for it,
/// and so is at least one of the root's children.
pub open spec fn meets_layout_criteria<P>(root: LayoutBlock<P>, n: Notification) -> bool {
    block_draws(root, n) && exists|i: int|
        0 <= i < root.children@.len() && block_draws(#[trigger] root.children@[i], n)
}

/// Whether `notification` gets a window of layout `root`; see [`meets_layout_criteria`].
pub fn notification_meets_layout_criteria<P>(root: &LayoutBlock<P>, notification: &Notification) -> (b: bool)
    ensures
        b == meets_layout_criteria(*root, *notification),
{
    if !root.should_draw(notification) {
        return false;
    }
    let mut i: usize = 0;
    while i < root.children.len()
        invariant
            block_draws(*root, *notification),
            0 <= i <= root.children@.len(),
            forall|j: int| 0 <= j < i ==> !block_draws(#[trigger] root.children@[j], *notification),
        decreases root.children@.len() - i,
    {
        if root.children[i].should_draw(notification) {
            assert(block_draws(root.children@[i as int], *notification));
            return true;
        }
        i += 1;
    }
    false
}

/// An empty render-criteria list with an empty anti-criteria list draws for every
/// notification; a matching anti-criterion hides the block whatever the criteria say.
pub proof fn anti_criteria_take_priority(
    criteria: Seq<RenderCriteria>,
    anti: Seq<RenderCriteria>,
    n: Notification,
)
    ensures
        criteria.len() == 0 && anti.len() == 0 ==> criteria_allow(criteria, anti, n),
        any_match(anti, n) ==> !criteria_allow(criteria, anti, n),
{
}

proof fn lemma_any_match_exists(cs: Seq<RenderCriteria>, n: Notification)
    ensures
        any_match(cs, n) <==> exists|k: int| 0 <= k < cs.len() && criteria_matches(#[trigger] cs[k], n),
    decreases cs.len(),
{
    if cs.len() > 0 {
        let init = cs.drop_last();
        lemma_any_match_exists(init, n);
        if any_match(init, n) {
            let k = choose|k: int| 0 <= k < init.len() && criteria_matches(#[trigger] init[k], n);
            assert(cs[k] == init[k]);
        }
        if exists|k: int| 0 <= k < cs.len() && criteria_matches(#[trigger] cs[k], n) {
            let k = choose|k: int| 0 <= k < cs.len() && criteria_matches(#[trigger] cs[k], n);
            if k < cs.len() - 1 {
                assert(init[k] == cs[k]);
            }
        }
    }
}

proof fn lemma_all_match_forall(cs: Seq<RenderCriteria>, n: Notification)
    ensures
        all_match(cs, n) <==> forall|k: int| 0 <= k < cs.len() ==> criteria_matches(#[trigger] cs[k], n),
    decreases cs.len(),
{
    if cs.len() > 0 {
        let init = cs.drop_last();
        lemma_all_match_forall(init, n);
        if all_match(cs, n) {
            assert forall|k: int| 0 <= k < cs.len() implies criteria_matches(#[trigger] cs[k], n) by {
                if k < cs.len() - 1 {
                    assert(init[k] == cs[k]);
                }
            }
        }
        if forall|k: int| 0 <= k < cs.len() ==> criteria_matches(#[trigger] cs[k], n) {
            assert forall|k: int| 0 <= k < init.len() implies criteria_matches(#[trigger] init[k], n) by {
                assert(init[k] == cs[k]);
            }
            assert(criteria_matches(cs[cs.len() - 1], n));
        }
    }
}

/// A block is drawn for a notification exactly when none of its anti-criteria holds of it
/// and, unless it has no render criteria at all, at least one of its render criteria does:
/// one matching criterion is enough, the others need not hold.
pub proof fn drawn_when_some_criterion_holds<P>(b: LayoutBlock<P>, n: Notification)
    ensures
        b.render_criteria@.len() > 0 ==> (block_draws(b, n) <==> (exists|k: int|
            0 <= k < b.render_criteria@.len() && criteria_matches(
                #[trigger] b.render_criteria@[k],
                n,
            )) && !(exists|k: int|
            0 <= k < b.render_anti_criteria@.len() && criteria_matches(
                #[trigger] b.render_anti_criteria@[k],
                n,
            ))),
        b.render_criteria@.len() == 0 ==> (block_draws(b, n) <==> !(exists|k: int|
            0 <= k < b.render_anti_criteria@.len() && criteria_matches(
                #[trigger] b.render_anti_criteria@[k],
                n,
            ))),
{
    lemma_any_match_exists(b.render_criteria@, n);
    lemma_any_match_exists(b.render_anti_criteria@, n);
}

/// A criterion `And(cs)` holds exactly when every criterion of `cs` holds, and `Or(cs)`
/// exactly when at least one does.
pub proof fn and_or_criteria(cs: Vec<RenderCriteria>, n: Notification)
    ensures
        criteria_matches(RenderCriteria::And(cs), n) <==> forall|k: int|
            0 <= k < cs@.len() ==> criteria_matches(#[trigger] cs@[k], n),
        criteria_matches(RenderCriteria::Or(cs), n) <==> exists|k: int|
            0 <= k < cs@.len() && criteria_matches(#[trigger] cs@[k], n),
{
    lemma_all_match_forall(cs@, n);
    lemma_any_match_exists(cs@, n);
}


/// Every block in the tree below `b` names, as its parent, the block it hangs from.
pub open spec fn parents_consistent<P>(b: LayoutBlock<P>) -> bool
    decreases b,
{
    forall|i: int|
        0 <= i < b.children@.len() ==> (#[trigger] b.children@[i]).parent@ == b.name@
            && parents_consistent(b.children@[i])
}

/// Whether some block of the tree `b` is named `name`.
pub open spec fn tree_has_name<P>(b: LayoutBlock<P>, name: Seq<char>) -> bool
    decreases b,
{
    b.name@ == name || exists|i: int|
        0 <= i < b.children@.len() && tree_has_name(#[trigger] b.children@[i], name)
}

/// The number of blocks in the tree `b`.
pub open spec fn tree_size<P>(b: LayoutBlock<P>) -> nat
    decreases b,
{
    1 + forest_size(b.children@)
}

/// The number of blocks in the trees `cs`.
pub open spec fn forest_size<P>(cs: Seq<LayoutBlock<P>>) -> nat
    decreases cs,
{
    if cs.len() == 0 {
        0
    } else {
        forest_size(cs.drop_last()) + tree_size(cs.last())
    }
}

/// What identifies a block apart from its children.
pub type BlockKey<P> = (Seq<char>, Seq<char>, Hook, LayoutElementKind, P, Seq<RenderCriteria>, Seq<
    RenderCriteria,
>);

/// The key of block `b`: everything but its children.
pub open spec fn block_key<P>(b: LayoutBlock<P>) -> BlockKey<P> {
    (b.name@, b.parent@, b.hook, b.kind, b.params, b.render_criteria@, b.render_anti_criteria@)
}

/// The keys of the blocks of the tree `b`, the root first.
pub open spec fn tree_keys<P>(b: LayoutBlock<P>) -> Seq<BlockKey<P>>
    decreases b,
{
    seq![block_key(b)] + forest_keys(b.children@)
}

/// The keys of the blocks of the trees `cs`, tree by tree.
pub open spec fn forest_keys<P>(cs: Seq<LayoutBlock<P>>) -> Seq<BlockKey<P>>
    decreases cs,
{
    if cs.len() == 0 {
        Seq::empty()
    } else {
        forest_keys(cs.drop_last()) + tree_keys(cs.last())
    }
}

/// The keys of the blocks `bs`, in order.
pub open spec fn keys_of<P>(bs: Seq<LayoutBlock<P>>) -> Seq<BlockKey<P>> {
    bs.map_values(|b: LayoutBlock<P>| block_key(b))
}

/// Taking out element `i` by moving the last element into its place loses exactly `s[i]`.
proof fn lemma_swap_remove_multiset<A>(s: Seq<A>, i: int)
    requires
        0 <= i < s.len(),
    ensures
        s.update(i, s.last()).drop_last().to_multiset().insert(s[i]) == s.to_multiset(),
{
    broadcast use vstd::seq_lib::to_multiset_build, vstd::seq_lib::to_multiset_update,
        vstd::multiset::group_multiset_axioms, vstd::seq_lib::to_multiset_contains;

    let d = s.drop_last();
    assert(s =~= d.push(s.last()));
    if i == s.len() - 1 {
        assert(s.update(i, s.last()).drop_last() =~= d);
    } else {
        assert(s.update(i, s.last()).drop_last() =~= d.update(i, s.last()));
        assert(d[i] == s[i]);
        assert(d.contains(s[i]));
        assert(d.update(i, s.last()).to_multiset().insert(s[i]) =~= s.to_multiset());
    }
}

/// `a` and `b` are the same block but for their children.
pub open spec fn same_block<P>(a: LayoutBlock<P>, b: LayoutBlock<P>) -> bool {
    &&& a.name == b.name
    &&& a.parent == b.parent
    &&& a.hook == b.hook
    &&& a.kind == b.kind
    &&& a.params == b.params
    &&& a.render_criteria == b.render_criteria
    &&& a.render_anti_criteria == b.render_anti_criteria
}

/// Every block of `bs` is a block of `from`, and has no children.
pub open spec fn childless_from<P>(bs: Seq<LayoutBlock<P>>, from: Seq<LayoutBlock<P>>) -> bool {
    forall|k: int|
        0 <= k < bs.len() ==> from.contains(#[trigger] bs[k]) && bs[k].children@.len() == 0
}

/// Attaches to `cur_root`, recursively, every block of `remaining` that names it as parent,
/// and returns the blocks left over: none of them names a block of the finished tree.
fn find_and_add_children<P>(cur_root: &mut LayoutBlock<P>, blocks: Vec<LayoutBlock<P>>) -> (rest: Vec<LayoutBlock<P>>)
    requires
        old(cur_root).children@.len() == 0,
        childless_from(blocks@, blocks@),
    ensures
        same_block(*final(cur_root), *old(cur_root)),
        parents_consistent(*final(cur_root)),
        childless_from(rest@, blocks@),
        forall|k: int|
            0 <= k < rest@.len() ==> !tree_has_name(*final(cur_root), (#[trigger] rest@[k]).parent@),
        tree_size(*final(cur_root)) + rest@.len() == 1 + blocks@.len(),
        tree_keys(*final(cur_root)).to_multiset().add(keys_of(rest@).to_multiset()) == keys_of(
            blocks@,
        ).to_multiset().insert(block_key(*old(cur_root))),
    decreases blocks@.len(),
{
    let ghost initial = blocks@;
    let ghost root0 = *cur_root;
    let mut remaining = blocks;
    let mut i: usize = 0;
    proof {
        assert(forest_size(cur_root.children@) == 0);
        broadcast use vstd::multiset::group_multiset_axioms, vstd::seq_lib::to_multiset_len,
            vstd::multiset::lemma_multiset_empty_len;
        assert(forest_keys(cur_root.children@) =~= Seq::<BlockKey<P>>::empty());
        assert(forest_keys(cur_root.children@).to_multiset().len() == 0);
        assert(keys_of(remaining@) =~= keys_of(initial));
        assert(forest_keys(cur_root.children@).to_multiset().add(keys_of(remaining@).to_multiset())
            =~= keys_of(initial).to_multiset());
    }
    while i < remaining.len()
        invariant
            initial.len() == blocks@.len(),
            same_block(*cur_root, root0),
            forall|c: int|
                0 <= c < cur_root.children@.len() ==> (#[trigger] cur_root.children@[c]).parent@
                    == cur_root.name@ && parents_consistent(cur_root.children@[c]),
            childless_from(remaining@, initial),
            forall|k: int, c: int|
                0 <= k < remaining@.len() && 0 <= c < cur_root.children@.len() ==> !tree_has_name(
                    #[trigger] cur_root.children@[c],
                    (#[trigger] remaining@[k]).parent@,
                ),
            0 <= i <= remaining@.len(),
            forall|j: int| 0 <= j < i ==> (#[trigger] remaining@[j]).parent@ != cur_root.name@,
            forest_size(cur_root.children@) + remaining@.len() == initial.len(),
            forest_keys(cur_root.children@).to_multiset().add(keys_of(remaining@).to_multiset())
                == keys_of(initial).to_multiset(),
        decreases remaining@.len(), remaining@.len() - i,
    {
        if remaining[i].parent == cur_root.name {
            let ghost before = remaining@;
            let mut block = remaining.swap_remove(i);
            proof {
                assert(before.contains(block));
                assert forall|k: int| 0 <= k < remaining@.len() implies before.contains(
                    #[trigger] remaining@[k],
                ) by {
                    if k == i {
                        assert(remaining@[k] == before.last());
                    } else {
                        assert(remaining@[k] == before[k]);
                    }
                }
                assert(childless_from(remaining@, remaining@));
                lemma_swap_remove_multiset(keys_of(before), i as int);
                assert(keys_of(before).update(i as int, keys_of(before).last()).drop_last()
                    =~= keys_of(remaining@));
            }
            let ghost mid = remaining@;
            let ghost block_old = block;
            remaining = find_and_add_children(&mut block, remaining);
            let ghost children_before = cur_root.children@;
            cur_root.children.push(block);
            proof {
                assert(cur_root.children@ == children_before.push(block));
                assert(cur_root.children@.drop_last() =~= children_before);
                broadcast use vstd::multiset::group_multiset_axioms,
                    vstd::seq_lib::lemma_multiset_commutative;
                assert(forest_keys(cur_root.children@) == forest_keys(children_before) + tree_keys(
                    block,
                ));
                assert(block_key(block_old) == keys_of(before)[i as int]);
                assert(forest_keys(cur_root.children@).to_multiset().add(
                    keys_of(remaining@).to_multiset(),
                ) =~= keys_of(initial).to_multiset());
                assert forall|k: int| 0 <= k < remaining@.len() implies initial.contains(
                    #[trigger] remaining@[k],
                ) && remaining@[k].children@.len() == 0 by {
                    assert(mid.contains(remaining@[k]));
                    let m = choose|m: int| 0 <= m < mid.len() && mid[m] == remaining@[k];
                    assert(before.contains(mid[m]));
                }
                assert forall|k: int, c: int|
                    0 <= k < remaining@.len() && 0 <= c < cur_root.children@.len() implies !tree_has_name(
                    #[trigger] cur_root.children@[c],
                    (#[trigger] remaining@[k]).parent@,
                ) by {
                    if c < children_before.len() {
                        assert(mid.contains(remaining@[k]));
                        let m = choose|m: int| 0 <= m < mid.len() && mid[m] == remaining@[k];
                        assert(before.contains(mid[m]));
                        let b = choose|b: int| 0 <= b < before.len() && before[b] == mid[m];
                        assert(cur_root.children@[c] == children_before[c]);
                        assert(!tree_has_name(children_before[c], before[b].parent@));
                    }
                }
            }
            i = 0;
        } else {
            i += 1;
        }
    }
    proof {
        assert(tree_size(*cur_root) == 1 + forest_size(cur_root.children@));
        broadcast use vstd::multiset::group_multiset_axioms,
            vstd::seq_lib::lemma_multiset_commutative, vstd::seq_lib::to_multiset_build;
        assert(block_key(*cur_root) == block_key(root0));
        assert(seq![block_key(*cur_root)] =~= Seq::<BlockKey<P>>::empty().push(block_key(*cur_root)));
        assert(tree_keys(*cur_root).to_multiset().add(keys_of(remaining@).to_multiset())
            =~= keys_of(blocks@).to_multiset().insert(block_key(root0)));
        assert forall|k: int| 0 <= k < remaining@.len() implies !tree_has_name(
            *cur_root,
            (#[trigger] remaining@[k]).parent@,
        ) by {
            let x = remaining@[k].parent@;
            assert(cur_root.name@ != x);
            assert forall|c: int| 0 <= c < cur_root.children@.len() implies !tree_has_name(
                #[trigger] cur_root.children@[c],
                x,
            ) by {
            }
        }
    }
    remaining
}

pub open spec fn no_blocks_message() -> &'static str {
    "Config did not contain any layout blocks!"
}

pub open spec fn root_kind_message() -> &'static str {
    "The first LayoutBlock params must be of type NotificationBlock!"
}

/// Builds the layout tree from the configuration's flat list of blocks: the first block is
/// the root, and every block hangs from the block its `parent` names, if that block is in the
/// tree. The root must be a notification block. Returns the tree and the blocks left out.
pub fn transform_and_validate<P>(layout_blocks: Vec<LayoutBlock<P>>) -> (r: Result<
    (LayoutBlock<P>, Vec<LayoutBlock<P>>),
    Error,
>)
    requires
        forall|k: int| 0 <= k < layout_blocks@.len() ==> (#[trigger] layout_blocks@[k]).children@.len()
            == 0,
    ensures
        layout_blocks@.len() == 0 ==> r == Err::<(LayoutBlock<P>, Vec<LayoutBlock<P>>), Error>(
            Error::Validate(no_blocks_message()),
        ),
        layout_blocks@.len() > 0 && layout_blocks@[0].kind != LayoutElementKind::NotificationBlock
            ==> r == Err::<(LayoutBlock<P>, Vec<LayoutBlock<P>>), Error>(
            Error::Validate(root_kind_message()),
        ),
        layout_blocks@.len() > 0 && layout_blocks@[0].kind == LayoutElementKind::NotificationBlock
            ==> (r matches Ok((root, left)) && same_block(root, layout_blocks@[0])
            && parents_consistent(root) && childless_from(left@, layout_blocks@) && (forall|k: int|
            0 <= k < left@.len() ==> !tree_has_name(root, (#[trigger] left@[k]).parent@))
            && tree_size(root) + left@.len() == layout_blocks@.len() && tree_keys(
            root,
        ).to_multiset().add(keys_of(left@).to_multiset()) == keys_of(layout_blocks@).to_multiset()),
{
    if layout_blocks.len() == 0 {
        return Err(Error::Validate("Config did not contain any layout blocks!"));
    }
    let ghost all = layout_blocks@;
    let mut blocks = layout_blocks;
    let mut root = blocks.swap_remove(0);
    proof {
        assert forall|k: int| 0 <= k < blocks@.len() implies all.contains(#[trigger] blocks@[k])
            && blocks@[k].children@.len() == 0 by {
            if k == 0 {
                assert(blocks@[k] == all.last());
            } else {
                assert(blocks@[k] == all[k]);
            }
        }
    }
    let ghost rest0 = blocks@;
    let ghost root0 = root;
    proof {
        lemma_swap_remove_multiset(keys_of(all), 0);
        assert(keys_of(all).update(0, keys_of(all).last()).drop_last() =~= keys_of(rest0));
        assert(keys_of(all)[0] == block_key(root0));
    }
    let left = find_and_add_children(&mut root, blocks);
    proof {
        assert forall|k: int| 0 <= k < left@.len() implies all.contains(#[trigger] left@[k])
            && left@[k].children@.len() == 0 by {
            let m = choose|m: int| 0 <= m < rest0.len() && rest0[m] == left@[k];
            assert(all.contains(rest0[m]));
        }
    }
    match root.kind {
        LayoutElementKind::NotificationBlock => Ok((root, left)),
        _ => Err(Error::Validate("The first LayoutBlock params must be of type NotificationBlock!")),
    }
}

} // verus!
