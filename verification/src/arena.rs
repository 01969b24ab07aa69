//! The arena representation: every node lies in one growable store and is
//! addressed by its 1-based position there.

use vstd::prelude::*;
use crate::interface::{
    BuildAst, Handles, Traverse, appended, builds_arg_list, builds_args, builds_command,
    builds_option, builds_option_list, builds_options, builds_str, extends, lemma_appended_chain,
    lemma_appended_none, lemma_appended_one,
};
use crate::tree::{Tree, is_command, leaves, leaves_of, lemma_command_size, size, size_of};

verus! {

/// A handle to a node of an arena: the node's 1-based position in the store.
/// Position 0 is never issued.
#[derive(Debug, Clone, Copy, PartialEq, Eq, Structural)]
pub struct Ref(usize);

impl Ref {
    /// The position that this handle names.
    pub closed spec fn spec_index(&self) -> usize {
        self.0
    }

    #[verifier::type_invariant]
    spec fn nonzero(&self) -> bool {
        self.0 != 0
    }

    /// The position that this handle names, counted from 1.
    #[verifier::when_used_as_spec(spec_index)]
    pub fn index(&self) -> (i: usize)
        ensures
            i == self.spec_index(),
            i != 0,
    {
        proof {
            use_type_invariant(self);
        }
        self.0
    }
}

/// A node of an arena. Children are named by handle, not owned.
#[derive(Debug, Clone, Copy)]
pub enum Ast {
    Str(&'static str),
    Option { name: Ref, value: Ref },
    Command { name: Ref, options: Option<Ref>, args: Option<Ref>, pipeline: Option<Ref> },
    List { value: Ref, next: Option<Ref> },
}

/// The store of nodes. Its view is the sequence of nodes, the node of handle
/// `r` at position `r.index() - 1`.
#[derive(Debug)]
pub struct Arena(Vec<Ast>);

impl View for Arena {
    type V = Seq<Ast>;

    closed spec fn view(&self) -> Seq<Ast> {
        self.0@
    }
}

/// The position of an optional child, 0 where there is none.
pub open spec fn index_of(r: Option<Ref>) -> int {
    match r {
        Some(r) => r.index() as int,
        None => 0,
    }
}

/// The largest position that `ast` names as a child, 0 for a leaf.
pub open spec fn rank(ast: Ast) -> int {
    match ast {
        Ast::Str(_) => 0,
        Ast::Option { name, value } => vstd::math::max(name.index() as int, value.index() as int),
        Ast::Command { name, options, args, pipeline } => vstd::math::max(
            vstd::math::max(name.index() as int, index_of(options)),
            vstd::math::max(index_of(args), index_of(pipeline)),
        ),
        Ast::List { value, next } => vstd::math::max(value.index() as int, index_of(next)),
    }
}

/// `r` names a node of `nodes`, and so does every handle below that node; each
/// child lies before its parent.
pub open spec fn holds(nodes: Seq<Ast>, r: Ref) -> bool
    decreases r.index(), 0int,
{
    &&& 1 <= r.index() <= nodes.len()
    &&& rank(nodes[r.index() - 1]) < r.index()
    &&& grounded(nodes, nodes[r.index() - 1])
}

/// Every child that `ast` names is held by `nodes`.
pub open spec fn grounded(nodes: Seq<Ast>, ast: Ast) -> bool
    decreases rank(ast), 1int,
{
    match ast {
        Ast::Str(_) => true,
        Ast::Option { name, value } => holds(nodes, name) && holds(nodes, value),
        Ast::Command { name, options, args, pipeline } => {
            &&& holds(nodes, name)
            &&& options matches Some(o) ==> holds(nodes, o)
            &&& args matches Some(a) ==> holds(nodes, a)
            &&& pipeline matches Some(p) ==> holds(nodes, p)
        },
        Ast::List { value, next } => holds(nodes, value) && (next matches Some(n) ==> holds(
            nodes,
            n,
        )),
    }
}

/// The tree below handle `r` in `nodes`.
pub open spec fn tree_at(nodes: Seq<Ast>, r: Ref) -> Tree
    decreases r.index(), 0int,
{
    if 1 <= r.index() <= nodes.len() && rank(nodes[r.index() - 1]) < r.index() {
        tree_of(nodes, nodes[r.index() - 1])
    } else {
        Tree::Str(Seq::empty())
    }
}

/// The tree that `ast` stands for, its children looked up in `nodes`.
pub open spec fn tree_of(nodes: Seq<Ast>, ast: Ast) -> Tree
    decreases rank(ast), 1int,
{
    match ast {
        Ast::Str(s) => Tree::Str(s@),
        Ast::Option { name, value } => Tree::Option {
            name: Box::new(tree_at(nodes, name)),
            value: Box::new(tree_at(nodes, value)),
        },
        Ast::Command { name, options, args, pipeline } => Tree::Command {
            name: Box::new(tree_at(nodes, name)),
            options: match options {
                Some(o) => Some(Box::new(tree_at(nodes, o))),
                None => None,
            },
            args: match args {
                Some(a) => Some(Box::new(tree_at(nodes, a))),
                None => None,
            },
            pipeline: match pipeline {
                Some(p) => Some(Box::new(tree_at(nodes, p))),
                None => None,
            },
        },
        Ast::List { value, next } => Tree::List {
            value: Box::new(tree_at(nodes, value)),
            next: match next {
                Some(n) => Some(Box::new(tree_at(nodes, n))),
                None => None,
            },
        },
    }
}

/// What an arena does when it stores `itm`: the node is appended, and the
/// handle `r` that is issued names its position, one more than the number of
/// nodes stored before.
pub open spec fn issues(before: Seq<Ast>, itm: Ast, after: Seq<Ast>, r: Ref) -> bool {
    after == before.push(itm) && r.index() == before.len() + 1
}

/// The first handle that an arena issues is 1.
pub proof fn lemma_first_handle(itm: Ast, after: Seq<Ast>, r: Ref)
    requires
        issues(Seq::empty(), itm, after, r),
    ensures
        r.index() == 1,
{
}

/// Handles grow strictly: a handle issued later, when the arena holds at least
/// the nodes that it held after an earlier one was issued, is larger than the
/// earlier one. So no handle is issued twice.
pub proof fn lemma_handles_increase(
    before: Seq<Ast>,
    itm: Ast,
    after: Seq<Ast>,
    r: Ref,
    later: Seq<Ast>,
    other: Ast,
    last: Seq<Ast>,
    s: Ref,
)
    requires
        issues(before, itm, after, r),
        after.is_prefix_of(later),
        issues(later, other, last, s),
    ensures
        r.index() < s.index(),
        after.is_prefix_of(last),
        last[r.index() - 1] == itm,
{
    assert(after[r.index() - 1] == itm);
    assert(later[r.index() - 1] == after[r.index() - 1]);
}

impl Arena {
    /// An empty arena.
    #[must_use]
    pub fn new() -> (a: Self)
        ensures
            a@ == Seq::<Ast>::empty(),
    {
        Self(Vec::new())
    }

    /// Appends `itm` and hands back its handle: one more than the number of
    /// nodes stored before, so the first handle is 1 and no handle comes twice.
    pub fn insert(&mut self, itm: Ast) -> (r: Ref)
        ensures
            issues(old(self)@, itm, final(self)@, r),
    {
        self.0.push(itm);
        Ref(self.0.len())
    }

    /// The node that `r` names.
    pub fn get(&self, r: Ref) -> (node: &Ast)
        requires
            1 <= r.index() <= self@.len(),
        ensures
            *node == self@[r.index() - 1],
    {
        &self.0[r.0 - 1]
    }
}

impl Ast {
    /// Walks the tree below this node in pre-order, calls `s` on the text of
    /// each string leaf and appends what it returns to `out`.
    pub fn traverse<R, F: Fn(&str) -> R>(&self, a: &Arena, s: &F, out: &mut Vec<R>)
        requires
            grounded(a@, *self),
            forall|t: &str| call_requires(*s, (t,)),
        ensures
            appended(*s, old(out)@, leaves(tree_of(a@, *self)), final(out)@),
        decreases rank(*self),
    {
        let ghost nodes = a@;
        let ghost start = out@;
        match *self {
            Ast::Str(x) => {
                let r = s(x);
                proof {
                    let t: &str = x;
                    assert(t@ == x@ && call_ensures(*s, (t,), r));
                    lemma_appended_one(*s, start, x@, r);
                }
                out.push(r);
            },
            Ast::Option { name, value } => {
                a.get(name).traverse(a, s, out);
                let ghost mid = out@;
                a.get(value).traverse(a, s, out);
                proof {
                    lemma_appended_chain(
                        *s,
                        start,
                        leaves(tree_at(nodes, name)),
                        mid,
                        leaves(tree_at(nodes, value)),
                        out@,
                    );
                }
            },
            Ast::Command { name, options, args, pipeline } => {
                let ghost tree = tree_of(nodes, *self);
                a.get(name).traverse(a, s, out);
                let ghost seen = leaves(tree_at(nodes, name));
                let ghost mid = out@;
                if let Some(o) = options {
                    a.get(o).traverse(a, s, out);
                }
                proof {
                    let more = leaves_of(tree->options);
                    if options is None {
                        lemma_appended_none(*s, mid);
                    }
                    lemma_appended_chain(*s, start, seen, mid, more, out@);
                }
                let ghost seen = seen + leaves_of(tree->options);
                let ghost mid = out@;
                if let Some(x) = args {
                    a.get(x).traverse(a, s, out);
                }
                proof {
                    let more = leaves_of(tree->args);
                    if args is None {
                        lemma_appended_none(*s, mid);
                    }
                    lemma_appended_chain(*s, start, seen, mid, more, out@);
                }
                let ghost seen = seen + leaves_of(tree->args);
                let ghost mid = out@;
                if let Some(p) = pipeline {
                    a.get(p).traverse(a, s, out);
                }
                proof {
                    let more = leaves_of(tree->pipeline);
                    if pipeline is None {
                        lemma_appended_none(*s, mid);
                    }
                    lemma_appended_chain(*s, start, seen, mid, more, out@);
                }
            },
            Ast::List { value, next } => {
                let ghost tree = tree_of(nodes, *self);
                a.get(value).traverse(a, s, out);
                let ghost mid = out@;
                if let Some(n) = next {
                    a.get(n).traverse(a, s, out);
                }
                proof {
                    let more = leaves_of(tree->next);
                    if next is None {
                        lemma_appended_none(*s, mid);
                    }
                    lemma_appended_chain(
                        *s,
                        start,
                        leaves(tree_at(nodes, value)),
                        mid,
                        more,
                        out@,
                    );
                }
            },
        }
    }
}

/// A node appended to the store disturbs no handle that was held before: the
/// handle is still held and stands for the same tree.
pub proof fn lemma_push_keeps_handle(nodes: Seq<Ast>, itm: Ast, r: Ref)
    requires
        holds(nodes, r),
    ensures
        holds(nodes.push(itm), r),
        tree_at(nodes.push(itm), r) == tree_at(nodes, r),
    decreases r.index(), 0int,
{
    assert(nodes.push(itm)[r.index() - 1] == nodes[r.index() - 1]);
    lemma_push_keeps_node(nodes, itm, nodes[r.index() - 1]);
}

/// A node appended to the store disturbs no node whose children were held
/// before.
pub proof fn lemma_push_keeps_node(nodes: Seq<Ast>, itm: Ast, ast: Ast)
    requires
        grounded(nodes, ast),
    ensures
        grounded(nodes.push(itm), ast),
        tree_of(nodes.push(itm), ast) == tree_of(nodes, ast),
    decreases rank(ast), 1int,
{
    match ast {
        Ast::Str(_) => {},
        Ast::Option { name, value } => {
            lemma_push_keeps_handle(nodes, itm, name);
            lemma_push_keeps_handle(nodes, itm, value);
        },
        Ast::Command { name, options, args, pipeline } => {
            lemma_push_keeps_handle(nodes, itm, name);
            if let Some(o) = options {
                lemma_push_keeps_handle(nodes, itm, o);
            }
            if let Some(a) = args {
                lemma_push_keeps_handle(nodes, itm, a);
            }
            if let Some(p) = pipeline {
                lemma_push_keeps_handle(nodes, itm, p);
            }
        },
        Ast::List { value, next } => {
            lemma_push_keeps_handle(nodes, itm, value);
            if let Some(n) = next {
                lemma_push_keeps_handle(nodes, itm, n);
            }
        },
    }
}

/// A node whose children are held, once appended, is held under the handle
/// that the store issues for it, and stands for the tree over its children.
pub proof fn lemma_push_holds_new(nodes: Seq<Ast>, itm: Ast, r: Ref)
    requires
        grounded(nodes, itm),
        r.index() == nodes.len() + 1,
    ensures
        holds(nodes.push(itm), r),
        tree_at(nodes.push(itm), r) == tree_of(nodes, itm),
{
    lemma_push_keeps_node(nodes, itm, itm);
    assert(nodes.push(itm)[r.index() - 1] == itm);
}

impl Arena {
    /// Appends a node whose children this arena holds: the new handle is held,
    /// and so is every handle that was held before.
    fn grow(&mut self, itm: Ast) -> (r: Ref)
        requires
            grounded(old(self)@, itm),
        ensures
            issues(old(self)@, itm, final(self)@, r),
            holds(final(self)@, r),
            tree_at(final(self)@, r) == tree_of(old(self)@, itm),
            extends(*old(self), *final(self)),
    {
        let ghost nodes = self@;
        let r = self.insert(itm);
        proof {
            lemma_push_holds_new(nodes, itm, r);
            assert forall|h: Ref| holds(nodes, h) implies holds(nodes.push(itm), h) && tree_at(
                nodes.push(itm),
                h,
            ) == tree_at(nodes, h) by {
                lemma_push_keeps_handle(nodes, itm, h);
            }
        }
        r
    }
}

impl Handles for Arena {
    type Command = Ref;

    type Option = Ref;

    type OptionList = Ref;

    type ArgList = Ref;

    type Str = Ref;

    open spec fn holds_str(&self, h: &Ref) -> bool {
        holds(self@, *h)
    }

    open spec fn str_tree(&self, h: &Ref) -> Tree {
        tree_at(self@, *h)
    }

    open spec fn holds_option(&self, h: &Ref) -> bool {
        holds(self@, *h)
    }

    open spec fn option_tree(&self, h: &Ref) -> Tree {
        tree_at(self@, *h)
    }

    open spec fn holds_option_list(&self, h: &Ref) -> bool {
        holds(self@, *h)
    }

    open spec fn option_list_tree(&self, h: &Ref) -> Tree {
        tree_at(self@, *h)
    }

    open spec fn holds_arg_list(&self, h: &Ref) -> bool {
        holds(self@, *h)
    }

    open spec fn arg_list_tree(&self, h: &Ref) -> Tree {
        tree_at(self@, *h)
    }

    open spec fn holds_command(&self, h: &Ref) -> bool {
        holds(self@, *h)
    }

    open spec fn command_tree(&self, h: &Ref) -> Tree {
        tree_at(self@, *h)
    }

    /// One node is appended, a string leaf of that text, and the handle is its
    /// position.
    open spec fn made_str(&self, text: Seq<char>, after: &Arena, r: &Ref) -> bool {
        exists|s: &'static str| s@ == text && issues(self@, Ast::Str(s), after@, *r)
    }

    /// One node is appended, and the handle is its position.
    open spec fn made_option(&self, name: &Ref, value: &Ref, after: &Arena, r: &Ref) -> bool {
        issues(self@, Ast::Option { name: *name, value: *value }, after@, *r)
    }

    /// One node is appended, and the handle is its position.
    open spec fn made_option_list(
        &self,
        value: &Ref,
        next: &Option<Ref>,
        after: &Arena,
        r: &Ref,
    ) -> bool {
        issues(self@, Ast::List { value: *value, next: *next }, after@, *r)
    }

    /// One node is appended, and the handle is its position.
    open spec fn made_arg_list(
        &self,
        value: &Ref,
        next: &Option<Ref>,
        after: &Arena,
        r: &Ref,
    ) -> bool {
        issues(self@, Ast::List { value: *value, next: *next }, after@, *r)
    }

    /// One node is appended, and the handle is its position.
    open spec fn made_command(
        &self,
        name: &Ref,
        options: &Option<Ref>,
        args: &Option<Ref>,
        next: &Option<Ref>,
        after: &Arena,
        r: &Ref,
    ) -> bool {
        issues(
            self@,
            Ast::Command { name: *name, options: *options, args: *args, pipeline: *next },
            after@,
            *r,
        )
    }
}

impl BuildAst for Arena {
    type Head = AstHead;

    /// The head owns the arena as it is, with `command` as its root.
    open spec fn made_head(&self, command: &Ref, head: &AstHead) -> bool {
        head.nodes() == self@ && head.root() == *command
    }

    fn build_head(self, command: Ref) -> (head: AstHead) {
        AstHead(self, command)
    }

    fn build_str(&mut self, s: &'static str) -> (r: Ref) {
        self.grow(Ast::Str(s))
    }

    fn build_command(
        &mut self,
        name: Ref,
        options: Option<Ref>,
        args: Option<Ref>,
        pipeline: Option<Ref>,
    ) -> (r: Ref) {
        self.grow(Ast::Command { name, options, args, pipeline })
    }

    fn build_option(&mut self, name: Ref, value: Ref) -> (r: Ref) {
        self.grow(Ast::Option { name, value })
    }

    fn build_option_list(&mut self, value: Ref, next: Option<Ref>) -> (r: Ref) {
        self.grow(Ast::List { value, next })
    }

    fn build_arg_list(&mut self, value: Ref, next: Option<Ref>) -> (r: Ref) {
        self.grow(Ast::List { value, next })
    }
}

/// The subtree `tree`, where there is one, lies in `nodes` with its root at
/// position `at`, and `h` is the handle of that root.
pub open spec fn laid_of(nodes: Seq<Ast>, at: int, tree: Option<Box<Tree>>, h: Option<Ref>) -> bool
    decreases tree,
{
    match tree {
        Some(t) => h matches Some(r) && r.index() == at && laid(nodes, at, *t),
        None => h is None,
    }
}

/// `tree` lies in `nodes` with its root at position `at`, node for node: the
/// nodes of each subtree lie together, those of the parts of a node one after
/// the other in the order of the parts, and each node right behind all that
/// lies below it. Every node of the tree is named by its parent and by no
/// other of them.
pub open spec fn laid(nodes: Seq<Ast>, at: int, tree: Tree) -> bool
    decreases tree,
{
    &&& size(tree) <= at <= nodes.len()
    &&& match tree {
        Tree::Str(text) => nodes[at - 1] matches Ast::Str(s) && s@ == text,
        Tree::Option { name, value } => {
            &&& nodes[at - 1] matches Ast::Option { name: hn, value: hv }
            &&& hv.index() == at - 1
            &&& laid(nodes, at - 1, *value)
            &&& hn.index() == at - 1 - size(*value)
            &&& laid(nodes, at - 1 - size(*value), *name)
        },
        Tree::List { value, next } => {
            &&& nodes[at - 1] matches Ast::List { value: hv, next: hn }
            &&& laid_of(nodes, at - 1, next, hn)
            &&& hv.index() == at - 1 - size_of(next)
            &&& laid(nodes, at - 1 - size_of(next), *value)
        },
        Tree::Command { name, options, args, pipeline } => {
            &&& nodes[at - 1] matches Ast::Command { name: hn, options: ho, args: ha, pipeline: hp }
            &&& laid_of(nodes, at - 1, pipeline, hp)
            &&& laid_of(nodes, at - 1 - size_of(pipeline), args, ha)
            &&& laid_of(nodes, at - 1 - size_of(pipeline) - size_of(args), options, ho)
            &&& hn.index() == at - 1 - size_of(pipeline) - size_of(args) - size_of(options)
            &&& laid(
                nodes,
                at - 1 - size_of(pipeline) - size_of(args) - size_of(options),
                *name,
            )
        },
    }
}

/// A subtree that lies in a store lies in every longer one, at the same place.
pub proof fn lemma_laid_of_stays(
    nodes: Seq<Ast>,
    later: Seq<Ast>,
    at: int,
    tree: Option<Box<Tree>>,
    h: Option<Ref>,
)
    requires
        nodes.is_prefix_of(later),
        tree is Some ==> at <= nodes.len(),
        laid_of(nodes, at, tree, h),
    ensures
        laid_of(later, at, tree, h),
    decreases tree,
{
    match tree {
        Some(t) => {
            lemma_laid_stays(nodes, later, at, *t);
        },
        None => {},
    }
}

/// A tree that lies in a store lies in every longer one, at the same place.
pub proof fn lemma_laid_stays(nodes: Seq<Ast>, later: Seq<Ast>, at: int, tree: Tree)
    requires
        nodes.is_prefix_of(later),
        laid(nodes, at, tree),
    ensures
        laid(later, at, tree),
    decreases tree,
{
    assert(size(tree) >= 1);
    assert(later.subrange(0, nodes.len() as int)[at - 1] == later[at - 1]);
    assert(later[at - 1] == nodes[at - 1]);
    match tree {
        Tree::Str(_) => {},
        Tree::Option { name, value } => {
            lemma_laid_stays(nodes, later, at - 1, *value);
            lemma_laid_stays(nodes, later, at - 1 - size(*value), *name);
        },
        Tree::List { value, next } => {
            let hn = nodes[at - 1]->List_next;
            lemma_laid_of_stays(nodes, later, at - 1, next, hn);
            lemma_laid_stays(nodes, later, at - 1 - size_of(next), *value);
        },
        Tree::Command { name, options, args, pipeline } => {
            let node = nodes[at - 1];
            lemma_laid_of_stays(nodes, later, at - 1, pipeline, node->pipeline);
            lemma_laid_of_stays(nodes, later, at - 1 - size_of(pipeline), args, node->args);
            lemma_laid_of_stays(
                nodes,
                later,
                at - 1 - size_of(pipeline) - size_of(args),
                options,
                node->options,
            );
            lemma_laid_stays(
                nodes,
                later,
                at - 1 - size_of(pipeline) - size_of(args) - size_of(options),
                *name,
            );
        },
    }
}

/// What the calls that build `tree` do to the store of an arena: they append
/// one node for each node of the tree and nothing else, and the handle of the
/// tree is that of the node appended last.
pub open spec fn grows(before: Seq<Ast>, tree: Tree, after: Seq<Ast>, h: Ref) -> bool {
    &&& after.len() == before.len() + size(tree)
    &&& before.is_prefix_of(after)
    &&& h.index() == after.len()
    &&& children_first(before, after)
    &&& laid(after, after.len() as int, tree)
}

/// Every node that `after` holds behind `before` names only nodes that lie
/// before it.
pub open spec fn children_first(before: Seq<Ast>, after: Seq<Ast>) -> bool {
    forall|i: int| before.len() <= i < after.len() ==> rank(#[trigger] after[i]) <= i
}

/// Children come first in a store that was built in steps, where they do in
/// each step.
proof fn lemma_children_chain(first: Seq<Ast>, second: Seq<Ast>, third: Seq<Ast>)
    requires
        first.is_prefix_of(second),
        second.is_prefix_of(third),
        children_first(first, second),
        children_first(second, third),
    ensures
        children_first(first, third),
{
    assert forall|i: int| first.len() <= i < third.len() implies rank(#[trigger] third[i])
        <= i by {
        if i < second.len() {
            assert(third.subrange(0, second.len() as int)[i] == third[i]);
            assert(rank(second[i]) <= i);
        }
    }
}

/// What stays in front of a store stays in front of a longer one.
proof fn lemma_prefix_chain(first: Seq<Ast>, second: Seq<Ast>, third: Seq<Ast>)
    requires
        first.is_prefix_of(second),
        second.is_prefix_of(third),
    ensures
        first.is_prefix_of(third),
{
    assert forall|i: int| 0 <= i < first.len() implies third[i] == first[i] by {
        assert(second.subrange(0, first.len() as int)[i] == second[i]);
        assert(third.subrange(0, second.len() as int)[i] == third[i]);
    }
    assert(first =~= third.subrange(0, first.len() as int));
}

/// A store stays in front of itself.
proof fn lemma_prefix_same(store: Seq<Ast>)
    ensures
        store.is_prefix_of(store),
{
    assert(store =~= store.subrange(0, store.len() as int));
}

/// One node was issued: the store is one longer, and what was there stays in
/// front.
proof fn lemma_issued(before: Seq<Ast>, itm: Ast, after: Seq<Ast>, r: Ref)
    requires
        issues(before, itm, after, r),
    ensures
        after.len() == before.len() + 1,
        before.is_prefix_of(after),
        r.index() == after.len(),
        after[before.len() as int] == itm,
        rank(itm) <= before.len() ==> children_first(before, after),
{
    assert(before =~= after.subrange(0, before.len() as int));
}

/// In an arena a string leaf costs one node.
pub proof fn lemma_arena_builds_str(before: Arena, tree: Tree, after: Arena, h: Ref)
    requires
        builds_str(before, tree, after, h),
    ensures
        grows(before@, tree, after@, h),
{
    let text = tree->Str_0;
    let s = choose|s: &'static str| s@ == text && issues(before@, Ast::Str(s), after@, h);
    lemma_issued(before@, Ast::Str(s), after@, h);
}

/// In an arena an option costs three nodes, the option last.
pub proof fn lemma_arena_builds_option(before: Arena, tree: Tree, after: Arena, h: Ref)
    requires
        builds_option(before, tree, after, h),
    ensures
        grows(before@, tree, after@, h),
{
    let name = *tree->Option_name;
    let value = *tree->Option_value;
    let (m1, m2, hn, hv) = choose|m1: Arena, m2: Arena, hn: Ref, hv: Ref|
        builds_str(before, name, m1, hn) && builds_str(m1, value, m2, hv) && m2.made_option(
            &hn,
            &hv,
            &after,
            &h,
        );
    lemma_arena_builds_str(before, name, m1, hn);
    lemma_arena_builds_str(m1, value, m2, hv);
    lemma_issued(m2@, Ast::Option { name: hn, value: hv }, after@, h);
    lemma_prefix_chain(before@, m1@, m2@);
    lemma_prefix_chain(before@, m2@, after@);
    lemma_children_chain(before@, m1@, m2@);
    lemma_children_chain(before@, m2@, after@);
    lemma_prefix_chain(m1@, m2@, after@);
    lemma_laid_stays(m2@, after@, m2@.len() as int, value);
    lemma_laid_stays(m1@, after@, m1@.len() as int, name);
    assert(size(tree) == size(name) + size(value) + 1);
}

/// In an arena an option list costs one node for each of its nodes, the first
/// cell last.
pub proof fn lemma_arena_builds_option_list(before: Arena, tree: Tree, after: Arena, h: Ref)
    requires
        builds_option_list(before, tree, after, h),
    ensures
        grows(before@, tree, after@, h),
    decreases tree,
{
    let value = *tree->List_value;
    let next = tree->next;
    let (m1, m2, hv, hn) = choose|m1: Arena, m2: Arena, hv: Ref, hn: Option<Ref>|
        builds_option(before, value, m1, hv) && (match next {
            Some(n) => hn is Some && builds_option_list(m1, *n, m2, hn->0),
            None => hn is None && m2 == m1,
        }) && m2.made_option_list(&hv, &hn, &after, &h);
    lemma_arena_builds_option(before, value, m1, hv);
    match next {
        Some(n) => {
            lemma_arena_builds_option_list(m1, *n, m2, hn->0);
        },
        None => {
            lemma_prefix_same(m1@);
        },
    }
    assert(size(tree) == size(value) + size_of(next) + 1);
    lemma_issued(m2@, Ast::List { value: hv, next: hn }, after@, h);
    lemma_prefix_chain(before@, m1@, m2@);
    lemma_prefix_chain(before@, m2@, after@);
    if next is None {
        assert(children_first(m1@, m2@));
    }
    lemma_children_chain(before@, m1@, m2@);
    lemma_children_chain(before@, m2@, after@);
    lemma_prefix_chain(m1@, m2@, after@);
    lemma_laid_stays(m1@, after@, m1@.len() as int, value);
    match next {
        Some(n) => {
            lemma_laid_stays(m2@, after@, m2@.len() as int, *n);
        },
        None => {},
    }
    assert(laid_of(after@, after@.len() - 1, next, hn));
}

/// In an arena an argument list costs one node for each of its nodes, the
/// first cell last.
pub proof fn lemma_arena_builds_arg_list(before: Arena, tree: Tree, after: Arena, h: Ref)
    requires
        builds_arg_list(before, tree, after, h),
    ensures
        grows(before@, tree, after@, h),
    decreases tree,
{
    let value = *tree->List_value;
    let next = tree->next;
    let (m1, m2, hv, hn) = choose|m1: Arena, m2: Arena, hv: Ref, hn: Option<Ref>|
        builds_str(before, value, m1, hv) && (match next {
            Some(n) => hn is Some && builds_arg_list(m1, *n, m2, hn->0),
            None => hn is None && m2 == m1,
        }) && m2.made_arg_list(&hv, &hn, &after, &h);
    lemma_arena_builds_str(before, value, m1, hv);
    match next {
        Some(n) => {
            lemma_arena_builds_arg_list(m1, *n, m2, hn->0);
        },
        None => {
            lemma_prefix_same(m1@);
        },
    }
    assert(size(tree) == size(value) + size_of(next) + 1);
    lemma_issued(m2@, Ast::List { value: hv, next: hn }, after@, h);
    lemma_prefix_chain(before@, m1@, m2@);
    lemma_prefix_chain(before@, m2@, after@);
    if next is None {
        assert(children_first(m1@, m2@));
    }
    lemma_children_chain(before@, m1@, m2@);
    lemma_children_chain(before@, m2@, after@);
    lemma_prefix_chain(m1@, m2@, after@);
    lemma_laid_stays(m1@, after@, m1@.len() as int, value);
    match next {
        Some(n) => {
            lemma_laid_stays(m2@, after@, m2@.len() as int, *n);
        },
        None => {},
    }
    assert(laid_of(after@, after@.len() - 1, next, hn));
}

/// In an arena a command costs one node for each of its nodes, the command
/// itself last: the nodes below a node lie before it, and the root lies at the
/// end of the store.
pub proof fn lemma_arena_builds_command(before: Arena, tree: Tree, after: Arena, h: Ref)
    requires
        builds_command(before, tree, after, h),
    ensures
        grows(before@, tree, after@, h),
    decreases tree,
{
    let name = *tree->Command_name;
    let options = tree->options;
    let args = tree->args;
    let pipeline = tree->pipeline;
    let (m1, m2, m3, m4, hn, ho, ha, hp) = choose|
        m1: Arena,
        m2: Arena,
        m3: Arena,
        m4: Arena,
        hn: Ref,
        ho: Option<Ref>,
        ha: Option<Ref>,
        hp: Option<Ref>,
    |
        builds_str(before, name, m1, hn) && builds_options(m1, options, m2, ho) && builds_args(
            m2,
            args,
            m3,
            ha,
        ) && (match pipeline {
            Some(p) => hp is Some && builds_command(m3, *p, m4, hp->0),
            None => hp is None && m4 == m3,
        }) && m4.made_command(&hn, &ho, &ha, &hp, &after, &h);
    lemma_arena_builds_str(before, name, m1, hn);
    match options {
        Some(o) => {
            lemma_arena_builds_option_list(m1, *o, m2, ho->0);
        },
        None => {
            lemma_prefix_same(m1@);
        },
    }
    match args {
        Some(a) => {
            lemma_arena_builds_arg_list(m2, *a, m3, ha->0);
        },
        None => {
            lemma_prefix_same(m2@);
        },
    }
    match pipeline {
        Some(p) => {
            lemma_arena_builds_command(m3, *p, m4, hp->0);
        },
        None => {
            lemma_prefix_same(m3@);
        },
    }
    assert(size(tree) == size(name) + size_of(options) + size_of(args) + size_of(pipeline) + 1);
    lemma_issued(
        m4@,
        Ast::Command { name: hn, options: ho, args: ha, pipeline: hp },
        after@,
        h,
    );
    lemma_prefix_chain(before@, m1@, m2@);
    lemma_prefix_chain(before@, m2@, m3@);
    lemma_prefix_chain(before@, m3@, m4@);
    lemma_prefix_chain(before@, m4@, after@);
    if options is None {
        assert(children_first(m1@, m2@));
    }
    if args is None {
        assert(children_first(m2@, m3@));
    }
    if pipeline is None {
        assert(children_first(m3@, m4@));
    }
    lemma_children_chain(before@, m1@, m2@);
    lemma_children_chain(before@, m2@, m3@);
    lemma_children_chain(before@, m3@, m4@);
    lemma_children_chain(before@, m4@, after@);
    lemma_prefix_chain(m3@, m4@, after@);
    lemma_prefix_chain(m2@, m3@, m4@);
    lemma_prefix_chain(m2@, m4@, after@);
    lemma_prefix_chain(m1@, m2@, after@);
    lemma_laid_stays(m1@, after@, m1@.len() as int, name);
    match options {
        Some(o) => {
            lemma_laid_stays(m2@, after@, m2@.len() as int, *o);
        },
        None => {},
    }
    match args {
        Some(a) => {
            lemma_laid_stays(m3@, after@, m3@.len() as int, *a);
        },
        None => {},
    }
    match pipeline {
        Some(p) => {
            lemma_laid_stays(m4@, after@, m4@.len() as int, *p);
        },
        None => {},
    }
    let at = after@.len() as int;
    assert(laid_of(after@, at - 1, pipeline, hp));
    assert(laid_of(after@, at - 1 - size_of(pipeline), args, ha));
    assert(laid_of(after@, at - 1 - size_of(pipeline) - size_of(args), options, ho));
}

/// After a parse into an arena: the store holds what it held before and, behind
/// that, two nodes for each string of the input and no other. They are the
/// tree laid out node for node, children before parents and the root last, each
/// node named by its parent alone.
pub proof fn lemma_arena_parse(builder: Arena, head: AstHead)
    requires
        is_command(head@),
        exists|last: Arena, root: Ref|
            builds_command(builder, head@, last, root) && last.made_head(&root, &head),
    ensures
        head.nodes().len() == builder@.len() + 2 * leaves(head@).len(),
        builder@.is_prefix_of(head.nodes()),
        head.root().index() == head.nodes().len(),
        children_first(builder@, head.nodes()),
        laid(head.nodes(), head.nodes().len() as int, head@),
{
    let (last, root) = choose|last: Arena, root: Ref|
        builds_command(builder, head@, last, root) && last.made_head(&root, &head);
    lemma_arena_builds_command(builder, head@, last, root);
    lemma_command_size(head@);
}

/// A finished tree in an arena: the arena and the handle of the root.
pub struct AstHead(Arena, Ref);

impl AstHead {
    #[verifier::type_invariant]
    spec fn rooted(&self) -> bool {
        holds(self.0@, self.1)
    }
}

impl AstHead {
    /// The nodes of the arena that this tree lies in.
    pub closed spec fn nodes(&self) -> Seq<Ast> {
        self.0@
    }

    /// The arena that holds the nodes of this tree; it holds the root.
    pub fn arena(&self) -> (a: &Arena)
        ensures
            a@ == self.nodes(),
            holds(a@, self.root()),
    {
        proof {
            use_type_invariant(self);
        }
        &self.0
    }

    /// The handle of the root.
    pub closed spec fn spec_root(&self) -> Ref {
        self.1
    }

    /// The handle of the root.
    #[verifier::when_used_as_spec(spec_root)]
    pub fn root(&self) -> (r: Ref)
        ensures
            r == self.spec_root(),
    {
        self.1
    }
}

impl View for AstHead {
    type V = Tree;

    /// The tree below the root.
    open spec fn view(&self) -> Tree {
        tree_at(self.nodes(), self.root())
    }
}

impl Traverse for AstHead {
    fn traverse<R, F: Fn(&str) -> R>(&self, s: F) -> (out: Vec<R>) {
        proof {
            use_type_invariant(self);
        }
        let mut out: Vec<R> = Vec::new();
        self.0.get(self.1).traverse(&self.0, &s, &mut out);
        out
    }
}

} // verus!
