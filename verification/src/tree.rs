//! A directory and everything under it, as it was read, and the order in
//! which the runtime walks it.

use crate::paths;
use crate::text;
use vstd::prelude::*;

verus! {

/// A file or a directory, as it was read.
#[derive(Debug, PartialEq, Eq)]
pub enum Node {
    File(Vec<u8>),
    /// A file that could not be read, and why.
    Unreadable(String),
    Dir(Vec<(String, Node)>),
    /// A directory that could not be listed, and why.
    Unlisted(String),
}

/// What a file or a directory is.
#[verifier::ext_equal]
pub enum NodeView {
    File(Seq<u8>),
    Unreadable(Seq<char>),
    Dir(Seq<(Seq<char>, NodeView)>),
    Unlisted(Seq<char>),
}

impl NodeView {
    /// Whether this is a directory.
    pub open spec fn is_dir(self) -> bool {
        self is Dir || self is Unlisted
    }
}

impl Node {
    /// The file or directory, as mathematics.
    pub open spec fn view(&self) -> NodeView
        decreases self,
    {
        match self {
            Node::File(b) => NodeView::File(b@),
            Node::Unreadable(why) => NodeView::Unreadable(why@),
            Node::Dir(es) => NodeView::Dir(
                Seq::new(
                    es@.len(),
                    |i: int|
                        if 0 <= i < es@.len() {
                            (es@[i].0@, es@[i].1.view())
                        } else {
                            (Seq::empty(), NodeView::File(Seq::empty()))
                        },
                ),
            ),
            Node::Unlisted(why) => NodeView::Unlisted(why@),
        }
    }

    /// Tells whether this is a directory.
    pub fn is_dir(&self) -> (r: bool)
        ensures
            r == self@.is_dir(),
    {
        match self {
            Node::Dir(_) => true,
            Node::Unlisted(_) => true,
            _ => false,
        }
    }
}

/// The entries of a directory, as mathematics.
pub open spec fn entries(es: Seq<(String, Node)>) -> Seq<(Seq<char>, NodeView)> {
    Seq::new(es.len(), |i: int| (es[i].0@, es[i].1@))
}

/// The entries with one more, each before the ones whose names follow its
/// own.
pub open spec fn placed(es: Seq<(Seq<char>, NodeView)>, e: (Seq<char>, NodeView)) -> Seq<
    (Seq<char>, NodeView),
>
    decreases es.len(),
{
    if es.len() > 0 && text::before(e.0, es.last().0) {
        placed(es.drop_last(), e).push(es.last())
    } else {
        es.push(e)
    }
}

/// The entries in the order of their names; entries with one name in the
/// order they came in.
pub open spec fn in_order(es: Seq<(Seq<char>, NodeView)>) -> Seq<(Seq<char>, NodeView)>
    decreases es.len(),
{
    if es.len() == 0 {
        es
    } else {
        placed(in_order(es.drop_last()), es.last())
    }
}

fn place(es: &mut Vec<(String, Node)>, e: (String, Node))
    ensures
        entries(final(es)@) == placed(entries(old(es)@), (e.0@, e.1@)),
        final(es)@.len() == old(es)@.len() + 1,
{
    let ghost all = entries(es@);
    let ghost one = (e.0@, e.1@);
    let mut at: usize = es.len();
    assert(all.subrange(0, all.len() as int) =~= all);
    assert(placed(all, one) + all.subrange(all.len() as int, all.len() as int) =~= placed(all, one));
    while at > 0 && text::precedes(e.0.as_str(), es[at - 1].0.as_str())
        invariant
            at <= es@.len(),
            all == entries(es@),
            one == (e.0@, e.1@),
            placed(all, one) == placed(all.subrange(0, at as int), one) + all.subrange(
                at as int,
                all.len() as int,
            ),
        decreases at,
    {
        proof {
            let head = all.subrange(0, at as int);
            assert(head.last() == (es@[at - 1].0@, es@[at - 1].1@));
            assert(head.drop_last() == all.subrange(0, at - 1));
            assert(placed(head.drop_last(), one).push(head.last()) + all.subrange(
                at as int,
                all.len() as int,
            ) =~= placed(all.subrange(0, at - 1), one) + all.subrange(at - 1, all.len() as int));
        }
        at = at - 1;
    }
    proof {
        let head = all.subrange(0, at as int);
        if at > 0 {
            assert(head.last() == (es@[at - 1].0@, es@[at - 1].1@));
        }
        assert(placed(head, one) == head.push(one));
    }
    es.insert(at, e);
    assert(entries(es@) =~= placed(all, one));
}

/// A directory with these entries, in the order of their names.
pub fn dir(listed: Vec<(String, Node)>) -> (r: Node)
    ensures
        r@ == NodeView::Dir(in_order(entries(listed@))),
{
    let ghost all = entries(listed@);
    let mut rest = listed;
    let mut es: Vec<(String, Node)> = Vec::new();
    assert(entries(es@) =~= in_order(all.subrange(0, 0)));
    let ghost n = all.len();
    let mut done: Ghost<int> = Ghost(0);
    while rest.len() > 0
        invariant
            n == all.len(),
            0 <= done@ <= n,
            rest@.len() == n - done@,
            entries(rest@) == all.subrange(done@, n as int),
            entries(es@) == in_order(all.subrange(0, done@)),
        decreases rest.len(),
    {
        let ghost before = entries(rest@);
        assert(before[0] == all[done@]);
        let e = rest.remove(0);
        assert((e.0@, e.1@) == before[0]);
        assert forall|k: int| 0 <= k < rest@.len() implies entries(rest@)[k] == all[done@ + 1
            + k] by {
            assert(entries(rest@)[k] == before[k + 1]);
        }
        assert(entries(rest@) =~= all.subrange(done@ + 1, n as int));
        place(&mut es, e);
        proof {
            let now = all.subrange(0, done@ + 1);
            assert(now.drop_last() == all.subrange(0, done@));
            assert(now.last() == all[done@]);
            done@ = done@ + 1;
        }
    }
    assert(all.subrange(0, n as int) == all);
    let r = Node::Dir(es);
    assert(r@->Dir_0 =~= entries(es@));
    r
}

// ---- the walk ----

/// One thing that a walk comes to, by its path from where the walk began.
#[derive(Debug)]
pub enum Item<'a> {
    /// A directory, before anything in it.
    Dir(String),
    /// A directory that could not be listed, and why.
    Unlisted(String, &'a String),
    /// A file.
    File(String, &'a Vec<u8>),
    /// A file that could not be read, and why.
    Unreadable(String, &'a String),
}

/// What a walk comes to.
#[verifier::ext_equal]
pub enum ItemView {
    Dir(Seq<char>),
    Unlisted(Seq<char>, Seq<char>),
    File(Seq<char>, Seq<u8>),
    Unreadable(Seq<char>, Seq<char>),
}

impl<'a> Item<'a> {
    /// The item, as mathematics.
    pub open spec fn view(&self) -> ItemView {
        match self {
            Item::Dir(p) => ItemView::Dir(p@),
            Item::Unlisted(p, why) => ItemView::Unlisted(p@, why@),
            Item::File(p, b) => ItemView::File(p@, b@),
            Item::Unreadable(p, why) => ItemView::Unreadable(p@, why@),
        }
    }
}

/// The items of a walk, as mathematics.
pub open spec fn item_views(items: Seq<Item>) -> Seq<ItemView> {
    Seq::new(items.len(), |i: int| items[i]@)
}

/// The files of one directory, in its order, up to entry `n`.
pub open spec fn files_in(path: Seq<char>, es: Seq<(Seq<char>, NodeView)>, n: int) -> Seq<ItemView>
    decreases n,
{
    if n <= 0 {
        Seq::empty()
    } else {
        let rest = files_in(path, es, n - 1);
        let p = paths::joined(path, es[n - 1].0);
        match es[n - 1].1 {
            NodeView::File(b) => rest.push(ItemView::File(p, b)),
            NodeView::Unreadable(why) => rest.push(ItemView::Unreadable(p, why)),
            _ => rest,
        }
    }
}

/// What the walk of a directory comes to: the directory, its files in order,
/// then what is in its directories, the last of them first.
pub open spec fn walked(path: Seq<char>, t: NodeView) -> Seq<ItemView>
    decreases t, 0int,
{
    match t {
        NodeView::Dir(es) => seq![ItemView::Dir(path)] + files_in(path, es, es.len() as int)
            + walked_dirs(path, es, es.len() as int),
        NodeView::Unlisted(why) => seq![ItemView::Unlisted(path, why)],
        _ => Seq::empty(),
    }
}

/// What the walks of the first `n` entries' directories come to, the last
/// first.
pub open spec fn walked_dirs(path: Seq<char>, es: Seq<(Seq<char>, NodeView)>, n: int) -> Seq<
    ItemView,
>
    decreases es, n,
{
    if n <= 0 || n > es.len() {
        Seq::empty()
    } else if es[n - 1].1.is_dir() {
        walked(paths::joined(path, es[n - 1].0), es[n - 1].1) + walked_dirs(path, es, n - 1)
    } else {
        walked_dirs(path, es, n - 1)
    }
}

/// What the walks of the directories on a stack come to, the topmost first.
pub open spec fn walked_stack(stack: Seq<(Seq<char>, NodeView)>) -> Seq<ItemView>
    decreases stack.len(),
{
    if stack.len() == 0 {
        Seq::empty()
    } else {
        walked(stack.last().0, stack.last().1) + walked_stack(stack.drop_last())
    }
}

/// The stack of a walk, as mathematics.
pub open spec fn stack_views(stack: Seq<(String, &Node)>) -> Seq<(Seq<char>, NodeView)> {
    Seq::new(stack.len(), |i: int| (stack[i].0@, stack[i].1@))
}

/// How many files and directories there are.
pub open spec fn size(t: NodeView) -> nat
    decreases t, 0int,
{
    match t {
        NodeView::Dir(es) => 1 + sizes(es, es.len() as int),
        _ => 1,
    }
}

/// How many files and directories there are in the first `n` entries.
pub open spec fn sizes(es: Seq<(Seq<char>, NodeView)>, n: int) -> nat
    decreases es, n,
{
    if n <= 0 || n > es.len() {
        0
    } else {
        size(es[n - 1].1) + sizes(es, n - 1)
    }
}

spec fn stack_size(stack: Seq<(Seq<char>, NodeView)>) -> nat
    decreases stack.len(),
{
    if stack.len() == 0 {
        0
    } else {
        size(stack.last().1) + stack_size(stack.drop_last())
    }
}

fn open_dir<'a>(
    path: &str,
    es: &'a Vec<(String, Node)>,
    items: &mut Vec<Item<'a>>,
    stack: &mut Vec<(String, &'a Node)>,
)
    ensures
        item_views(final(items)@) == item_views(old(items)@) + files_in(
            path@,
            entries(es@),
            es@.len() as int,
        ),
        walked_stack(stack_views(final(stack)@)) == walked_dirs(
            path@,
            entries(es@),
            es@.len() as int,
        ) + walked_stack(stack_views(old(stack)@)),
        stack_size(stack_views(final(stack)@)) <= sizes(entries(es@), es@.len() as int)
            + stack_size(stack_views(old(stack)@)),
{
    let ghost all = entries(es@);
    let ghost items0 = item_views(items@);
    let ghost stack0 = stack_views(stack@);
    let mut i: usize = 0;
    assert(items0 + files_in(path@, all, 0) =~= items0);
    assert(walked_dirs(path@, all, 0) + walked_stack(stack0) =~= walked_stack(stack0));
    while i < es.len()
        invariant
            i <= es.len(),
            all == entries(es@),
            item_views(items@) == items0 + files_in(path@, all, i as int),
            walked_stack(stack_views(stack@)) == walked_dirs(path@, all, i as int) + walked_stack(
                stack0,
            ),
            stack_size(stack_views(stack@)) <= sizes(all, i as int) + stack_size(stack0),
        decreases es.len() - i,
    {
        let ghost items1 = item_views(items@);
        let ghost stack1 = stack_views(stack@);
        assert(all[i as int] == (es@[i as int].0@, es@[i as int].1@));
        let p = paths::join(path, es[i].0.as_str());
        let ghost full = p@;
        match &es[i].1 {
            Node::File(b) => {
                items.push(Item::File(p, b));
                assert(item_views(items@) =~= items1.push(ItemView::File(full, b@)));
                assert(item_views(items@) =~= items0 + files_in(path@, all, i + 1));
            },
            Node::Unreadable(why) => {
                items.push(Item::Unreadable(p, why));
                assert(item_views(items@) =~= items1.push(ItemView::Unreadable(full, why@)));
                assert(item_views(items@) =~= items0 + files_in(path@, all, i + 1));
            },
            _ => {
                stack.push((p, &es[i].1));
                let ghost one = (full, es@[i as int].1@);
                assert(stack_views(stack@) =~= stack1.push(one));
                assert(stack1.push(one).drop_last() =~= stack1);
                assert(walked_stack(stack_views(stack@)) == walked(one.0, one.1) + walked_stack(
                    stack1,
                ));
                assert(walked_stack(stack_views(stack@)) =~= walked_dirs(path@, all, i + 1)
                    + walked_stack(stack0));
            },
        }
        i = i + 1;
    }
}

/// Walks a directory.
pub fn walk<'a>(t: &'a Node) -> (r: Vec<Item<'a>>)
    ensures
        item_views(r@) == walked(Seq::empty(), t@),
{
    let mut items: Vec<Item<'a>> = Vec::new();
    let mut stack: Vec<(String, &'a Node)> = Vec::new();
    stack.push((String::new(), t));
    assert(stack_views(stack@) =~= seq![(Seq::<char>::empty(), t@)]);
    assert(stack_views(stack@).drop_last() =~= Seq::empty());
    assert(item_views(items@) =~= Seq::empty());
    assert(walked_stack(stack_views(stack@)) =~= walked(Seq::empty(), t@)) by {
        reveal_with_fuel(walked_stack, 2);
    }
    while stack.len() > 0
        invariant
            item_views(items@) + walked_stack(stack_views(stack@)) == walked(Seq::empty(), t@),
        decreases stack_size(stack_views(stack@)),
    {
        let ghost items0 = item_views(items@);
        let ghost stack0 = stack_views(stack@);
        let (path, node) = stack.pop().unwrap();
        assert(stack_views(stack@) =~= stack0.drop_last());
        assert(stack0.last() == (path@, node@));
        let ghost rest = walked_stack(stack_views(stack@));
        match node {
            Node::Dir(es) => {
                assert(node@->Dir_0 =~= entries(es@));
                items.push(Item::Dir(path.clone()));
                let ghost items1 = item_views(items@);
                assert(items1 =~= items0.push(ItemView::Dir(path@)));
                open_dir(path.as_str(), es, &mut items, &mut stack);
                assert(item_views(items@) + walked_stack(stack_views(stack@)) =~= items0 + (walked(
                    path@,
                    node@,
                ) + rest));
            },
            Node::Unlisted(why) => {
                items.push(Item::Unlisted(path, why));
                assert(item_views(items@) =~= items0.push(ItemView::Unlisted(path@, why@)));
                assert(item_views(items@) + rest =~= items0 + (walked(path@, node@) + rest));
            },
            _ => {
                assert(walked(path@, node@) =~= Seq::empty());
                assert(items0 + rest =~= items0 + (walked(path@, node@) + rest));
            },
        }
    }
    assert(item_views(items@) + walked_stack(stack_views(stack@)) =~= item_views(items@));
    items
}

// ---- laws ----

proof fn in_sum<A>(a: Seq<A>, b: Seq<A>, x: A)
    ensures
        (a + b).contains(x) <==> a.contains(x) || b.contains(x),
{
    if a.contains(x) {
        let i = choose|i: int| 0 <= i < a.len() && a[i] == x;
        assert((a + b)[i] == x);
    }
    if b.contains(x) {
        let i = choose|i: int| 0 <= i < b.len() && b[i] == x;
        assert((a + b)[a.len() + i] == x);
    }
    if (a + b).contains(x) {
        let i = choose|i: int| 0 <= i < (a + b).len() && (a + b)[i] == x;
        if i < a.len() {
            assert(a[i] == x);
        } else {
            assert(b[i - a.len()] == x);
        }
    }
}

/// Whether an entry of a directory at `path` is a file and the item is what a
/// walk makes of it.
pub open spec fn is_file_entry(path: Seq<char>, e: (Seq<char>, NodeView), x: ItemView) -> bool {
    match e.1 {
        NodeView::File(b) => x == ItemView::File(paths::joined(path, e.0), b),
        NodeView::Unreadable(why) => x == ItemView::Unreadable(paths::joined(path, e.0), why),
        _ => false,
    }
}

proof fn files_in_are_entries(path: Seq<char>, es: Seq<(Seq<char>, NodeView)>, n: int, x: ItemView)
    requires
        0 <= n <= es.len(),
    ensures
        files_in(path, es, n).contains(x) <==> exists|i: int|
            0 <= i < n && is_file_entry(path, #[trigger] es[i], x),
    decreases n,
{
    if n > 0 {
        files_in_are_entries(path, es, n - 1, x);
        let rest = files_in(path, es, n - 1);
        let all = files_in(path, es, n);
        if is_file_entry(path, es[n - 1], x) {
            assert(all[rest.len() as int] == x);
        }
        if rest.contains(x) {
            let k = choose|k: int| 0 <= k < rest.len() && rest[k] == x;
            assert(all[k] == x);
        }
        if all.contains(x) {
            let k = choose|k: int| 0 <= k < all.len() && all[k] == x;
            if k < rest.len() {
                assert(rest[k] == x);
            } else {
                assert(is_file_entry(path, es[n - 1], x));
            }
        }
    }
}

proof fn walked_dirs_are_entries(
    path: Seq<char>,
    es: Seq<(Seq<char>, NodeView)>,
    n: int,
    x: ItemView,
)
    requires
        0 <= n <= es.len(),
    ensures
        walked_dirs(path, es, n).contains(x) <==> exists|i: int|
            0 <= i < n && (#[trigger] es[i]).1.is_dir() && walked(
                paths::joined(path, es[i].0),
                es[i].1,
            ).contains(x),
    decreases n,
{
    if n > 0 {
        walked_dirs_are_entries(path, es, n - 1, x);
        if es[n - 1].1.is_dir() {
            in_sum(
                walked(paths::joined(path, es[n - 1].0), es[n - 1].1),
                walked_dirs(path, es, n - 1),
                x,
            );
        }
    }
}

/// The walk of a directory comes to the directory first, and then to each of
/// its entries and to nothing else: a file at its path with its bytes, and
/// everything that the walk of a directory in it comes to.
pub proof fn a_walk_comes_to_every_entry(
    path: Seq<char>,
    es: Seq<(Seq<char>, NodeView)>,
    x: ItemView,
)
    ensures
        walked(path, NodeView::Dir(es))[0] == ItemView::Dir(path),
        walked(path, NodeView::Dir(es)).contains(x) <==> x == ItemView::Dir(path) || exists|i: int|
            0 <= i < es.len() && match (#[trigger] es[i]).1 {
                NodeView::File(b) => x == ItemView::File(paths::joined(path, es[i].0), b),
                NodeView::Unreadable(why) => x == ItemView::Unreadable(
                    paths::joined(path, es[i].0),
                    why,
                ),
                NodeView::Dir(_) => walked(paths::joined(path, es[i].0), es[i].1).contains(x),
                NodeView::Unlisted(why) => x == ItemView::Unlisted(
                    paths::joined(path, es[i].0),
                    why,
                ),
            },
{
    let n = es.len() as int;
    let first = seq![ItemView::Dir(path)];
    in_sum(first + files_in(path, es, n), walked_dirs(path, es, n), x);
    in_sum(first, files_in(path, es, n), x);
    assert(first.contains(x) <==> x == ItemView::Dir(path)) by {
        assert(first[0] == ItemView::Dir(path));
    }
    files_in_are_entries(path, es, n, x);
    walked_dirs_are_entries(path, es, n, x);
    let w = walked(path, NodeView::Dir(es));
    assert forall|i: int| 0 <= i < n && (#[trigger] es[i]).1 is Unlisted implies (walked(
        paths::joined(path, es[i].0),
        es[i].1,
    ).contains(x) <==> x == ItemView::Unlisted(
        paths::joined(path, es[i].0),
        es[i].1->Unlisted_0,
    )) by {
        let one = walked(paths::joined(path, es[i].0), es[i].1);
        assert(one[0] == ItemView::Unlisted(paths::joined(path, es[i].0), es[i].1->Unlisted_0));
    }
}

/// Whether the names lead, one directory below the other, to a file with
/// these bytes.
pub open spec fn leads_to(t: NodeView, names: Seq<Seq<char>>, b: Seq<u8>) -> bool
    decreases names.len(),
{
    if names.len() == 0 {
        t == NodeView::File(b)
    } else {
        t matches NodeView::Dir(es) && exists|i: int|
            0 <= i < es.len() && (#[trigger] es[i]).0 == names[0] && leads_to(
                es[i].1,
                names.drop_first(),
                b,
            )
    }
}

/// The path behind names that lie one below the other.
pub open spec fn trail(path: Seq<char>, names: Seq<Seq<char>>) -> Seq<char>
    decreases names.len(),
{
    if names.len() == 0 {
        path
    } else {
        trail(paths::joined(path, names[0]), names.drop_first())
    }
}

/// However deep a file lies, the walk comes to it.
pub proof fn a_walk_comes_to_every_file(
    path: Seq<char>,
    t: NodeView,
    names: Seq<Seq<char>>,
    b: Seq<u8>,
)
    requires
        names.len() > 0,
        leads_to(t, names, b),
    ensures
        walked(path, t).contains(ItemView::File(trail(path, names), b)),
    decreases names.len(),
{
    let es = t->Dir_0;
    let rest = names.drop_first();
    let i = choose|i: int|
        0 <= i < es.len() && (#[trigger] es[i]).0 == names[0] && leads_to(es[i].1, rest, b);
    let below = paths::joined(path, names[0]);
    let x = ItemView::File(trail(path, names), b);
    assert(trail(path, names) == trail(below, rest));
    if rest.len() > 0 {
        a_walk_comes_to_every_file(below, es[i].1, rest, b);
    } else {
        assert(trail(below, rest) == below);
        assert(es[i].1 == NodeView::File(b));
    }
    a_walk_comes_to_every_entry(path, es, x);
    assert(es[i].0 == names[0]);
}

/// Every file that the walk comes to lies in the tree.
pub proof fn a_walk_comes_to_no_other_file(
    path: Seq<char>,
    t: NodeView,
    at: Seq<char>,
    b: Seq<u8>,
)
    requires
        walked(path, t).contains(ItemView::File(at, b)),
    ensures
        exists|names: Seq<Seq<char>>|
            names.len() > 0 && at == #[trigger] trail(path, names) && leads_to(t, names, b),
    decreases t,
{
    let x = ItemView::File(at, b);
    if let NodeView::Dir(es) = t {
        a_walk_comes_to_every_entry(path, es, x);
        let i = choose|i: int|
            0 <= i < es.len() && match (#[trigger] es[i]).1 {
                NodeView::File(b) => x == ItemView::File(paths::joined(path, es[i].0), b),
                NodeView::Unreadable(why) => x == ItemView::Unreadable(
                    paths::joined(path, es[i].0),
                    why,
                ),
                NodeView::Dir(_) => walked(paths::joined(path, es[i].0), es[i].1).contains(x),
                NodeView::Unlisted(why) => x == ItemView::Unlisted(
                    paths::joined(path, es[i].0),
                    why,
                ),
            };
        let below = paths::joined(path, es[i].0);
        let rest = if es[i].1 is Dir {
            a_walk_comes_to_no_other_file(below, es[i].1, at, b);
            choose|rest: Seq<Seq<char>>|
                rest.len() > 0 && at == #[trigger] trail(below, rest) && leads_to(es[i].1, rest, b)
        } else {
            Seq::empty()
        };
        let names = seq![es[i].0] + rest;
        assert(names.drop_first() =~= rest);
        if rest.len() == 0 {
            assert(trail(below, rest) == below);
            assert(leads_to(es[i].1, rest, b));
        }
        assert(es[i].0 == names[0]);
        assert(leads_to(t, names, b));
        assert(at == trail(path, names));
    } else {
        let w = walked(path, t);
        let k = choose|k: int| 0 <= k < w.len() && w[k] == x;
        assert(w[k] == x);
    }
}

proof fn files_in_prefix(
    path: Seq<char>,
    es: Seq<(Seq<char>, NodeView)>,
    e: (Seq<char>, NodeView),
    n: int,
)
    requires
        0 <= n <= es.len(),
    ensures
        files_in(path, es.push(e), n) == files_in(path, es, n),
    decreases n,
{
    if n > 0 {
        files_in_prefix(path, es, e, n - 1);
        assert(es.push(e)[n - 1] == es[n - 1]);
    }
}

proof fn walked_dirs_prefix(
    path: Seq<char>,
    es: Seq<(Seq<char>, NodeView)>,
    e: (Seq<char>, NodeView),
    n: int,
)
    requires
        0 <= n <= es.len(),
    ensures
        walked_dirs(path, es.push(e), n) == walked_dirs(path, es, n),
    decreases n,
{
    if n > 0 {
        walked_dirs_prefix(path, es, e, n - 1);
        assert(es.push(e)[n - 1] == es[n - 1]);
    }
}

/// Nothing is come to twice: an empty directory is come to alone, and one
/// more entry adds its file, or all that its own walk comes to, once.
pub proof fn a_walk_comes_to_each_entry_once(
    path: Seq<char>,
    es: Seq<(Seq<char>, NodeView)>,
    e: (Seq<char>, NodeView),
)
    ensures
        walked(path, NodeView::Dir(Seq::empty())) == seq![ItemView::Dir(path)],
        walked(path, NodeView::Dir(es.push(e))).to_multiset() == walked(
            path,
            NodeView::Dir(es),
        ).to_multiset().add(
            (match e.1 {
                NodeView::File(b) => seq![ItemView::File(paths::joined(path, e.0), b)],
                NodeView::Unreadable(why) => seq![
                    ItemView::Unreadable(paths::joined(path, e.0), why),
                ],
                NodeView::Unlisted(why) => seq![ItemView::Unlisted(paths::joined(path, e.0), why)],
                NodeView::Dir(_) => walked(paths::joined(path, e.0), e.1),
            }).to_multiset(),
        ),
{
    let n = es.len() as int;
    let first = seq![ItemView::Dir(path)];
    assert(walked(path, NodeView::Dir(Seq::empty())) =~= first);
    files_in_prefix(path, es, e, n);
    walked_dirs_prefix(path, es, e, n);
    let more = es.push(e);
    let files = files_in(path, es, n);
    let dirs = walked_dirs(path, es, n);
    let old_walk = walked(path, NodeView::Dir(es));
    let new_walk = walked(path, NodeView::Dir(more));
    assert(more[n] == e);
    vstd::seq_lib::lemma_multiset_commutative(first + files, dirs);
    match e.1 {
        NodeView::File(_) | NodeView::Unreadable(_) => {
            let one = seq![files_in(path, more, n + 1).last()];
            assert(files_in(path, more, n + 1) =~= files + one);
            assert(first + files_in(path, more, n + 1) =~= (first + files) + one);
            vstd::seq_lib::lemma_multiset_commutative((first + files) + one, dirs);
            vstd::seq_lib::lemma_multiset_commutative(first + files, one);
            assert(new_walk =~= ((first + files) + one) + dirs);
        },
        _ => {
            let own = walked(paths::joined(path, e.0), e.1);
            vstd::seq_lib::lemma_multiset_commutative(own, dirs);
            vstd::seq_lib::lemma_multiset_commutative(first + files, own + dirs);
            assert(new_walk =~= (first + files) + (own + dirs));
        },
    }
}

proof fn placed_keeps(es: Seq<(Seq<char>, NodeView)>, e: (Seq<char>, NodeView))
    ensures
        placed(es, e).to_multiset() == es.to_multiset().insert(e),
        forall|i: int|
            0 <= i < placed(es, e).len() ==> (#[trigger] placed(es, e)[i] == e || es.contains(
                placed(es, e)[i],
            )),
    decreases es.len(),
{
    broadcast use vstd::seq_lib::group_to_multiset_ensures;

    if es.len() > 0 && text::before(e.0, es.last().0) {
        let rest = es.drop_last();
        placed_keeps(rest, e);
        assert(rest.push(es.last()) =~= es);
        assert(placed(es, e).to_multiset() =~= es.to_multiset().insert(e));
        assert forall|i: int| 0 <= i < placed(es, e).len() implies (#[trigger] placed(es, e)[i] == e
            || es.contains(placed(es, e)[i])) by {
            let p = placed(rest, e);
            if i < p.len() {
                assert(placed(es, e)[i] == p[i]);
                if p[i] != e {
                    let k = choose|k: int| 0 <= k < rest.len() && rest[k] == p[i];
                    assert(es[k] == p[i]);
                }
            } else {
                assert(es[es.len() - 1] == es.last());
            }
        }
    } else {
        assert(placed(es, e).to_multiset() =~= es.to_multiset().insert(e));
        assert forall|i: int| 0 <= i < placed(es, e).len() implies (#[trigger] placed(es, e)[i] == e
            || es.contains(placed(es, e)[i])) by {
            if i < es.len() {
                assert(es[i] == placed(es, e)[i]);
            }
        }
    }
}

/// Whether no name follows one that it stands before.
pub open spec fn names_in_order(es: Seq<(Seq<char>, NodeView)>) -> bool {
    forall|i: int, j: int|
        0 <= i < j < es.len() ==> !text::before((#[trigger] es[j]).0, (#[trigger] es[i]).0)
}

proof fn placed_in_order(es: Seq<(Seq<char>, NodeView)>, e: (Seq<char>, NodeView))
    requires
        names_in_order(es),
    ensures
        names_in_order(placed(es, e)),
    decreases es.len(),
{
    if es.len() > 0 && text::before(e.0, es.last().0) {
        let rest = es.drop_last();
        assert forall|i: int, j: int| 0 <= i < j < rest.len() implies !text::before(
            (#[trigger] rest[j]).0,
            (#[trigger] rest[i]).0,
        ) by {
            assert(rest[j] == es[j] && rest[i] == es[i]);
        }
        placed_in_order(rest, e);
        placed_keeps(rest, e);
        let p = placed(rest, e);
        let all = placed(es, e);
        assert forall|i: int, j: int| 0 <= i < j < all.len() implies !text::before(
            (#[trigger] all[j]).0,
            (#[trigger] all[i]).0,
        ) by {
            if j < p.len() {
                assert(all[j] == p[j] && all[i] == p[i]);
            } else {
                assert(all[i] == p[i]);
                assert(all[j] == es.last());
                if p[i] == e {
                    if text::before(es.last().0, e.0) {
                        text::before_transitive(e.0, es.last().0, e.0);
                        text::before_irreflexive(e.0);
                    }
                } else {
                    let k = choose|k: int| 0 <= k < rest.len() && rest[k] == p[i];
                    assert(es[k] == p[i]);
                    assert(es[es.len() - 1] == es.last());
                }
            }
        }
    } else {
        let all = placed(es, e);
        assert forall|i: int, j: int| 0 <= i < j < all.len() implies !text::before(
            (#[trigger] all[j]).0,
            (#[trigger] all[i]).0,
        ) by {
            if j < es.len() {
                assert(all[j] == es[j] && all[i] == es[i]);
            } else {
                assert(all[i] == es[i]);
                assert(all[j] == e);
                if text::before(e.0, es[i].0) {
                    let l = es.len() - 1;
                    if i < l {
                        assert(!text::before(es[l].0, es[i].0));
                        text::before_total(es[i].0, es[l].0);
                        if es[i].0 != es[l].0 {
                            text::before_transitive(e.0, es[i].0, es[l].0);
                        }
                    }
                }
            }
        }
    }
}

/// A directory holds exactly the entries that were listed, in the order of
/// their names.
pub proof fn a_directory_is_its_entries_in_order(es: Seq<(Seq<char>, NodeView)>)
    ensures
        in_order(es).to_multiset() == es.to_multiset(),
        names_in_order(in_order(es)),
    decreases es.len(),
{
    broadcast use vstd::seq_lib::group_to_multiset_ensures;

    if es.len() > 0 {
        let rest = es.drop_last();
        a_directory_is_its_entries_in_order(rest);
        placed_keeps(in_order(rest), es.last());
        placed_in_order(in_order(rest), es.last());
        assert(rest.push(es.last()) =~= es);
        assert(in_order(es).to_multiset() =~= es.to_multiset());
    }
}

} // verus!
