use crate::action::{action_text, actions_of, actions_view, copy_actions, to_actions, Action, ActionView};
use crate::coord::{chars_of, push_char, SgfError, SgfResult};
use vstd::prelude::*;
use vstd::string::{StrSliceExecFns, StringExecFns};

verus! {

/// A token of a game record.
#[derive(Clone, Debug, PartialEq)]
pub enum ParserToken {
    /// `(`
    LParen,
    /// `)`
    RParen,
    /// `;` and the text after it
    Node(String),
}

pub enum TokenView {
    LParen,
    RParen,
    Node(Seq<char>),
}

impl View for ParserToken {
    type V = TokenView;

    open spec fn view(&self) -> TokenView {
        match self {
            ParserToken::LParen => TokenView::LParen,
            ParserToken::RParen => TokenView::RParen,
            ParserToken::Node(s) => TokenView::Node(s@),
        }
    }
}

pub open spec fn tokens_view(v: Seq<ParserToken>) -> Seq<TokenView> {
    Seq::new(v.len(), |i: int| v[i]@)
}

/// A character with the Unicode White_Space property.
pub open spec fn is_white_space(c: char) -> bool {
    let i = c as u32;
    ||| 9 <= i <= 13
    ||| i == 32
    ||| i == 0x85
    ||| i == 0xA0
    ||| i == 0x1680
    ||| 0x2000 <= i <= 0x200A
    ||| i == 0x2028
    ||| i == 0x2029
    ||| i == 0x202F
    ||| i == 0x205F
    ||| i == 0x3000
}

/// `s` without the white space at its start.
pub open spec fn trim_front(s: Seq<char>) -> Seq<char>
    decreases s.len(),
{
    if s.len() > 0 && is_white_space(s[0]) {
        trim_front(s.drop_first())
    } else {
        s
    }
}

/// `s` without the white space at its end.
pub open spec fn trim_back(s: Seq<char>) -> Seq<char>
    decreases s.len(),
{
    if s.len() > 0 && is_white_space(s.last()) {
        trim_back(s.drop_last())
    } else {
        s
    }
}

/// `s` without white space at either end.
pub open spec fn trim_of(s: Seq<char>) -> Seq<char> {
    trim_back(trim_front(s))
}

/// Relies on `str::trim`, which removes the characters with the Unicode
/// White_Space property from both ends.
#[verifier::external_body]
fn trimmed(s: &String) -> (r: String)
    ensures
        r@ == trim_of(s@),
{
    s.trim().to_string()
}

/// The tokens read so far and the node text not yet ended. Node text starts
/// at `;` and ends at the next `;`, `(` or `)`; text outside a node is
/// skipped.
pub open spec fn lex_scan(s: Seq<char>) -> (Seq<TokenView>, Seq<char>)
    decreases s.len(),
{
    if s.len() == 0 {
        (Seq::empty(), Seq::empty())
    } else {
        let (toks, buf) = lex_scan(s.drop_last());
        let c = s.last();
        let open = buf.len() > 0 && buf[0] == ';';
        let flushed = if open {
            toks.push(TokenView::Node(trim_of(buf)))
        } else {
            toks
        };
        let rest = if open {
            Seq::empty()
        } else {
            buf
        };
        if c == '(' {
            (flushed.push(TokenView::LParen), rest)
        } else if c == ')' {
            (flushed.push(TokenView::RParen), rest)
        } else if c == ';' {
            (flushed, rest.push(';'))
        } else if open {
            (toks, buf.push(c))
        } else {
            (toks, buf)
        }
    }
}

/// Splits a game record into parentheses and node texts.
pub fn lex(s: String) -> (r: Vec<ParserToken>)
    ensures
        tokens_view(r@) == lex_scan(s@).0,
{
    let chars = chars_of(s.as_str());
    let mut tokens: Vec<ParserToken> = Vec::new();
    let mut node = String::new();
    let mut open = false;
    let mut i: usize = 0;
    assert(s@.subrange(0, 0) =~= Seq::<char>::empty());
    assert(tokens_view(tokens@) =~= Seq::empty());
    while i < chars.len()
        invariant
            chars@ == s@,
            i <= chars@.len(),
            lex_scan(s@.subrange(0, i as int)) == (tokens_view(tokens@), node@),
            open == (node@.len() > 0 && node@[0] == ';'),
            !open ==> node@.len() == 0,
        decreases chars@.len() - i,
    {
        let c = chars[i];
        assert(s@.subrange(0, i as int + 1).drop_last() =~= s@.subrange(0, i as int));
        if c == '(' || c == ')' || c == ';' {
            if open {
                let t = trimmed(&node);
                let ghost before = tokens@;
                tokens.push(ParserToken::Node(t));
                assert(tokens_view(tokens@) =~= tokens_view(before).push(TokenView::Node(trim_of(node@))));
                node = String::new();
                open = false;
            }
            let ghost before = tokens@;
            if c == '(' {
                tokens.push(ParserToken::LParen);
                assert(tokens_view(tokens@) =~= tokens_view(before).push(TokenView::LParen));
            } else if c == ')' {
                tokens.push(ParserToken::RParen);
                assert(tokens_view(tokens@) =~= tokens_view(before).push(TokenView::RParen));
            } else {
                push_char(&mut node, ';');
                open = true;
            }
        } else if open {
            push_char(&mut node, c);
        }
        i += 1;
    }
    assert(s@.subrange(0, chars@.len() as int) =~= s@);
    tokens
}

/// A node of a game record: its actions, and its place in the tree.
#[derive(Debug, PartialEq)]
pub struct SgfNode {
    pub actions: Vec<Action>,
    /// Positions of the children in the tree's node list.
    pub children: Vec<usize>,
    /// Every node but the root has a parent.
    pub parent: Option<usize>,
}

pub struct NodeView {
    pub actions: Seq<ActionView>,
    pub children: Seq<usize>,
    pub parent: Option<usize>,
}

impl View for SgfNode {
    type V = NodeView;

    open spec fn view(&self) -> NodeView {
        NodeView { actions: actions_view(self.actions@), children: self.children@, parent: self.parent }
    }
}

pub struct TreeView {
    pub nodes: Seq<NodeView>,
    pub current: usize,
}

/// A game record as a tree of nodes, the root at position 0, with a current
/// node.
#[derive(Debug, PartialEq)]
pub struct SgfTree {
    nodes: Vec<SgfNode>,
    current: usize,
}

/// A tree with one empty root.
pub open spec fn blank_tree() -> TreeView {
    TreeView {
        nodes: seq![NodeView { actions: Seq::empty(), children: Seq::empty(), parent: None }],
        current: 0,
    }
}

/// Parents come before their children, and the root has none.
pub open spec fn tree_wf(t: TreeView) -> bool {
    &&& t.nodes.len() >= 1
    &&& t.current < t.nodes.len()
    &&& t.nodes[0].parent is None
    &&& forall|i: int| 0 < i < t.nodes.len() ==> (#[trigger] t.nodes[i]).parent is Some && t.nodes[i].parent->0 < i
    &&& forall|i: int, j: int|
        0 <= i < t.nodes.len() && 0 <= j < t.nodes[i].children.len() ==> i < #[trigger] t.nodes[i].children[j]
            < t.nodes.len()
}

/// The tree after the text of a node: text starting with `;` becomes a new
/// last child of the current node, which it then is; other text adds its
/// actions to the current node.
pub open spec fn new_text(t: TreeView, s: Seq<char>) -> TreeView {
    let cur = t.current as int;
    if s.len() > 0 && s[0] == ';' {
        let l = t.nodes.len();
        TreeView {
            nodes: t.nodes.update(cur, NodeView { children: t.nodes[cur].children.push(l as usize), ..t.nodes[cur] }).push(
                NodeView { actions: actions_of(s), children: Seq::empty(), parent: Some(t.current) },
            ),
            current: l as usize,
        }
    } else {
        TreeView {
            nodes: t.nodes.update(cur, NodeView { actions: t.nodes[cur].actions + actions_of(s), ..t.nodes[cur] }),
            ..t
        }
    }
}

impl Default for SgfTree {
    /// A tree with one empty root.
    fn default() -> (r: SgfTree)
        ensures
            r@ == blank_tree(),
            r.wf(),
    {
        SgfTree::new()
    }
}

impl View for SgfTree {
    type V = TreeView;

    closed spec fn view(&self) -> TreeView {
        TreeView { nodes: Seq::new(self.nodes@.len(), |i: int| self.nodes@[i]@), current: self.current }
    }
}

impl SgfTree {
    pub open spec fn wf(&self) -> bool {
        tree_wf(self@)
    }

    /// A tree with one empty root.
    pub fn new() -> (r: SgfTree)
        ensures
            r@ == blank_tree(),
            r.wf(),
    {
        let mut nodes: Vec<SgfNode> = Vec::new();
        nodes.push(SgfNode { actions: Vec::new(), children: Vec::new(), parent: None });
        let r = SgfTree { nodes, current: 0 };
        assert(actions_view(Seq::<Action>::empty()) =~= Seq::empty());
        assert(r@.nodes =~= blank_tree().nodes);
        r
    }

    /// All the nodes, the root first.
    pub fn nodes(&self) -> (r: &Vec<SgfNode>)
        ensures
            r@.len() == self@.nodes.len(),
            forall|i: int| 0 <= i < r@.len() ==> (#[trigger] r@[i])@ == self@.nodes[i],
    {
        &self.nodes
    }

    pub fn current_node(&self) -> (r: &SgfNode)
        requires
            self.wf(),
        ensures
            r@ == self@.nodes[self@.current as int],
    {
        &self.nodes[self.current]
    }

    pub fn root(&self) -> (r: &SgfNode)
        requires
            self.wf(),
        ensures
            r@ == self@.nodes[0],
    {
        &self.nodes[0]
    }

    /// The number of children of the current node.
    pub fn num_children(&self) -> (r: usize)
        requires
            self.wf(),
        ensures
            r == self@.nodes[self@.current as int].children.len(),
    {
        self.nodes[self.current].children.len()
    }

    /// Makes child `child` of the current node the current node, if there
    /// is one.
    pub fn select_child(&mut self, child: usize) -> (r: SgfResult<()>)
        requires
            old(self).wf(),
        ensures
            final(self).wf(),
            final(self)@.nodes == old(self)@.nodes,
            ({
                let kids = old(self)@.nodes[old(self)@.current as int].children;
                &&& child < kids.len() ==> r is Ok && final(self)@.current == kids[child as int]
                &&& child >= kids.len() ==> r == Err::<(), SgfError>(SgfError::ChildDoesntExist)
                    && final(self)@.current == old(self)@.current
            }),
    {
        let cur = self.current;
        if child < self.nodes[cur].children.len() {
            assert(self@.nodes[cur as int].children[child as int] < self@.nodes.len());
            self.current = self.nodes[cur].children[child];
            return Ok(());
        }
        Err(SgfError::ChildDoesntExist)
    }

    /// Makes the parent of the current node the current node; fails at the
    /// root.
    pub fn select_parent(&mut self) -> (r: SgfResult<()>)
        requires
            old(self).wf(),
        ensures
            final(self).wf(),
            final(self)@.nodes == old(self)@.nodes,
            ({
                let p = old(self)@.nodes[old(self)@.current as int].parent;
                &&& p is Some ==> r is Ok && final(self)@.current == p->0
                &&& p is None ==> r == Err::<(), SgfError>(SgfError::ParentOfRoot) && final(self)@.current
                    == old(self)@.current
            }),
    {
        match self.nodes[self.current].parent {
            Some(i) => {
                proof {
                    if self.current == 0 {
                        assert(self@.nodes[0].parent is None);
                    }
                }
                self.current = i;
                Ok(())
            },
            None => Err(SgfError::ParentOfRoot),
        }
    }

    /// Replaces the root's actions with those of the text.
    pub fn set_root(&mut self, s: String) -> (r: SgfResult<()>)
        requires
            old(self).wf(),
        ensures
            final(self).wf(),
            r is Ok,
            final(self)@ == (TreeView {
                nodes: old(self)@.nodes.update(0, NodeView { actions: actions_of(s@), ..old(self)@.nodes[0] }),
                ..old(self)@
            }),
    {
        let acts = to_actions(s.as_str());
        self.nodes[0].actions = acts;
        assert(self@.nodes =~= old(self)@.nodes.update(0, NodeView { actions: actions_of(s@), ..old(self)@.nodes[0] }));
        Ok(())
    }

    pub fn select_root(&mut self)
        requires
            old(self).wf(),
        ensures
            final(self).wf(),
            final(self)@ == (TreeView { current: 0, ..old(self)@ }),
    {
        self.current = 0;
    }

    /// Adds the text of a node: text starting with `;` becomes a new last
    /// child of the current node and the new current node; other text adds
    /// its actions to the current node.
    pub fn handle_new_text(&mut self, s: String)
        requires
            old(self).wf(),
        ensures
            final(self).wf(),
            final(self)@ == new_text(old(self)@, s@),
    {
        let cur = self.current;
        let starts = s.as_str().unicode_len() > 0 && s.as_str().get_char(0) == ';';
        let acts = to_actions(s.as_str());
        if starts {
            let l = self.nodes.len();
            self.nodes[cur].children.push(l);
            self.nodes.push(SgfNode { actions: acts, children: Vec::new(), parent: Some(cur) });
            self.current = l;
            proof {
                let t = old(self)@;
                let expected = new_text(t, s@);
                assert(actions_view(acts@) == actions_of(s@));
                assert(self@.nodes[l as int] == expected.nodes[l as int]);
                assert(self@.nodes =~= expected.nodes);
            }
        } else {
            let ghost before = self.nodes@[cur as int].actions@;
            let mut acts = acts;
            self.nodes[cur].actions.append(&mut acts);
            proof {
                let t = old(self)@;
                let expected = new_text(t, s@);
                assert(actions_view(self.nodes@[cur as int].actions@) =~= actions_view(before) + actions_of(s@));
                assert(self@.nodes =~= expected.nodes);
            }
        }
    }
}


/// One token's effect on the tree and on the stack of nodes saved at each
/// `(`: a node's text is added, `(` saves the current node, `)` returns to
/// the node saved last.
pub open spec fn parse_step(t: TreeView, stack: Seq<usize>, tok: TokenView) -> (TreeView, Seq<usize>) {
    match tok {
        TokenView::Node(s) => (new_text(t, s), stack),
        TokenView::LParen => (t, stack.push(t.current)),
        TokenView::RParen => if stack.len() > 0 {
            (TreeView { current: stack.last(), ..t }, stack.drop_last())
        } else {
            (t, stack)
        },
    }
}

pub open spec fn parse_scan(t: TreeView, stack: Seq<usize>, toks: Seq<TokenView>) -> (TreeView, Seq<usize>)
    decreases toks.len(),
{
    if toks.len() == 0 {
        (t, stack)
    } else {
        let (t1, s1) = parse_scan(t, stack, toks.drop_last());
        parse_step(t1, s1, toks.last())
    }
}

/// The actions of node `i`, then of its parent, and so on up to but not
/// including the root.
pub open spec fn parent_chain(t: TreeView, i: int) -> Seq<Seq<ActionView>>
    decreases i,
{
    if 0 <= i < t.nodes.len() && t.nodes[i].parent is Some && t.nodes[i].parent->0 < i {
        seq![t.nodes[i].actions] + parent_chain(t, t.nodes[i].parent->0 as int)
    } else {
        Seq::empty()
    }
}

pub open spec fn action_lists_view(v: Seq<Vec<Action>>) -> Seq<Seq<ActionView>> {
    Seq::new(v.len(), |i: int| actions_view(v[i]@))
}

impl SgfTree {
    /// The actions of the current node, then of its parent, and so on up to
    /// but not including the root.
    pub fn get_all_parent_action(&self) -> (r: Vec<Vec<Action>>)
        requires
            self.wf(),
        ensures
            action_lists_view(r@) == parent_chain(self@, self@.current as int),
    {
        let mut all: Vec<Vec<Action>> = Vec::new();
        let mut node = self.current;
        assert(action_lists_view(all@) =~= Seq::empty());
        while self.nodes[node].parent.is_some()
            invariant
                self.wf(),
                node < self@.nodes.len(),
                action_lists_view(all@) + parent_chain(self@, node as int) == parent_chain(
                    self@,
                    self@.current as int,
                ),
            decreases node,
        {
            let p = self.nodes[node].parent.unwrap();
            assert(node > 0);
            assert(self@.nodes[node as int].parent->0 < node);
            let ghost before = all@;
            all.push(copy_actions(&self.nodes[node].actions));
            assert(action_lists_view(all@) =~= action_lists_view(before).push(self@.nodes[node as int].actions));
            assert(action_lists_view(all@) + parent_chain(self@, p as int) =~= action_lists_view(before) + parent_chain(
                self@,
                node as int,
            ));
            node = p;
        }
        assert(action_lists_view(all@) + parent_chain(self@, node as int) =~= action_lists_view(all@));
        all
    }
}

/// The board size that a node's actions give: the last `SZ` among them,
/// or 19 by 19 when there is none.
pub open spec fn size_of(acts: Seq<ActionView>) -> (usize, usize)
    decreases acts.len(),
{
    if acts.len() == 0 {
        (19, 19)
    } else {
        match acts.last() {
            ActionView::Size(w, h) => (w, h),
            _ => size_of(acts.drop_last()),
        }
    }
}

impl SgfTree {
    /// The board size the record gives in its root, 19 by 19 by default.
    pub fn board_size(&self) -> (r: (usize, usize))
        requires
            self.wf(),
        ensures
            r == size_of(self@.nodes[0].actions),
    {
        let acts = &self.nodes[0].actions;
        let ghost av = self@.nodes[0].actions;
        let mut size: (usize, usize) = (19, 19);
        let mut i: usize = 0;
        while i < acts.len()
            invariant
                av == actions_view(acts@),
                i <= acts@.len(),
                size == size_of(av.subrange(0, i as int)),
            decreases acts@.len() - i,
        {
            assert(av.subrange(0, i as int + 1).drop_last() =~= av.subrange(0, i as int));
            assert(av[i as int] == acts@[i as int]@);
            if let Action::Size(w, h) = &acts[i] {
                size = (*w, *h);
            }
            i += 1;
        }
        assert(av.subrange(0, acts@.len() as int) =~= av);
        size
    }
}

/// What a token list reads as: it must open with `(`; the token after that
/// gives the root's actions if it is a node; the rest is read in order; the
/// root is current at the end.
pub open spec fn parse_value(toks: Seq<TokenView>) -> SgfResult<TreeView> {
    if toks.len() == 0 || !(toks[0] is LParen) {
        Err(SgfError::MissingLParen)
    } else {
        let t0 = blank_tree();
        let t1 = if toks.len() >= 2 && toks[1] is Node {
            TreeView {
                nodes: t0.nodes.update(0, NodeView { actions: actions_of(toks[1]->Node_0), ..t0.nodes[0] }),
                ..t0
            }
        } else {
            t0
        };
        let rest = if toks.len() >= 2 {
            toks.skip(2)
        } else {
            Seq::empty()
        };
        let (t, _) = parse_scan(t1, Seq::empty(), rest);
        Ok(TreeView { current: 0, ..t })
    }
}

pub open spec fn tree_result(r: SgfResult<SgfTree>) -> SgfResult<TreeView> {
    match r {
        Ok(t) => Ok(t@),
        Err(e) => Err(e),
    }
}

/// Builds the tree of a token list.
pub fn parse(tokens: Vec<ParserToken>) -> (r: SgfResult<SgfTree>)
    ensures
        tree_result(r) == parse_value(tokens_view(tokens@)),
        r is Ok ==> r->Ok_0.wf(),
{
    let ghost toks = tokens_view(tokens@);
    let n = tokens.len();
    if n == 0 {
        return Err(SgfError::MissingLParen);
    }
    match &tokens[0] {
        ParserToken::LParen => {},
        _ => {
            return Err(SgfError::MissingLParen);
        },
    }
    let mut tree = SgfTree::new();
    if n < 2 {
        return Ok(tree);
    }
    match &tokens[1] {
        ParserToken::Node(s) => {
            let _ = tree.set_root(s.clone());
        },
        _ => {},
    }
    let ghost t1 = tree@;
    let ghost rest = toks.skip(2);
    let mut stack: Vec<usize> = Vec::new();
    let mut i: usize = 2;
    proof {
        assert(rest.subrange(0, 0) =~= Seq::<TokenView>::empty());
    }
    while i < n
        invariant
            n == tokens@.len(),
            toks == tokens_view(tokens@),
            rest == toks.skip(2),
            2 <= i <= n,
            tree.wf(),
            forall|k: int| 0 <= k < stack@.len() ==> #[trigger] stack@[k] < tree@.nodes.len(),
            parse_scan(t1, Seq::empty(), rest.subrange(0, i - 2)) == (tree@, stack@),
        decreases n - i,
    {
        proof {
            assert(rest.subrange(0, i - 1).drop_last() =~= rest.subrange(0, i - 2));
            assert(rest[i - 2] == toks[i as int]);
        }
        match &tokens[i] {
            ParserToken::Node(s) => {
                tree.handle_new_text(s.clone());
            },
            ParserToken::LParen => {
                stack.push(tree.current);
            },
            ParserToken::RParen => {
                if stack.len() > 0 {
                    let c = stack.pop().unwrap();
                    tree.current = c;
                }
            },
        }
        i += 1;
    }
    proof {
        assert(rest.subrange(0, n - 2) =~= rest);
    }
    tree.select_root();
    Ok(tree)
}

impl SgfTree {
    /// Reads a game record.
    pub fn parse(s: String) -> (r: SgfResult<SgfTree>)
        ensures
            tree_result(r) == parse_value(lex_scan(s@).0),
            r is Ok ==> r->Ok_0.wf(),
    {
        parse(lex(s))
    }
}


/// The text of each action that can be written, one after another.
pub open spec fn acts_text(acts: Seq<ActionView>) -> Seq<char>
    decreases acts.len(),
{
    if acts.len() == 0 {
        Seq::empty()
    } else {
        acts_text(acts.drop_last()) + match action_text(acts.last()) {
            Ok(t) => t,
            Err(_) => Seq::empty(),
        }
    }
}

/// A node written as `;` and its actions, then its line: a single child
/// follows directly, several each stand in parentheses.
pub open spec fn node_text(t: TreeView, i: int) -> Seq<char>
    decreases t.nodes.len() - i, 2int, 0int,
{
    if 0 <= i < t.nodes.len() {
        let kids = t.nodes[i].children;
        seq![';'] + acts_text(t.nodes[i].actions) + if kids.len() == 1 {
            child_text(t, i, kids[0] as int)
        } else {
            kids_text(t, i, kids.len() as int)
        }
    } else {
        Seq::empty()
    }
}

/// The text of child `c` of node `parent`.
pub open spec fn child_text(t: TreeView, parent: int, c: int) -> Seq<char>
    decreases t.nodes.len() - parent, 0int, 0int,
{
    if 0 <= parent < c < t.nodes.len() {
        node_text(t, c)
    } else {
        Seq::empty()
    }
}

/// The first `k` children of node `i`, each in parentheses.
pub open spec fn kids_text(t: TreeView, i: int, k: int) -> Seq<char>
    decreases t.nodes.len() - i, 1int, k,
{
    if 0 <= i < t.nodes.len() && 0 < k <= t.nodes[i].children.len() {
        kids_text(t, i, k - 1) + seq!['('] + child_text(t, i, t.nodes[i].children[k - 1] as int) + seq![')']
    } else {
        Seq::empty()
    }
}

impl SgfTree {
    fn write_actions(&self, node_i: usize, s: &mut String)
        requires
            self.wf(),
            node_i < self@.nodes.len(),
        ensures
            final(s)@ == old(s)@ + acts_text(self@.nodes[node_i as int].actions),
    {
        let acts = &self.nodes[node_i].actions;
        let ghost av = self@.nodes[node_i as int].actions;
        let mut k: usize = 0;
        assert(old(s)@ + acts_text(av.subrange(0, 0)) =~= old(s)@);
        while k < acts.len()
            invariant
                av == actions_view(acts@),
                k <= acts@.len(),
                s@ == old(s)@ + acts_text(av.subrange(0, k as int)),
            decreases acts@.len() - k,
        {
            assert(av.subrange(0, k as int + 1).drop_last() =~= av.subrange(0, k as int));
            assert(av[k as int] == acts@[k as int]@);
            match acts[k].to_sgf_text() {
                Ok(t) => {
                    s.append(t.as_str());
                },
                Err(_) => {},
            }
            assert(s@ =~= old(s)@ + acts_text(av.subrange(0, k as int + 1)));
            k += 1;
        }
        assert(av.subrange(0, acts@.len() as int) =~= av);
    }

    fn stringify_node(&self, node_i: usize, s: &mut String)
        requires
            self.wf(),
            node_i < self@.nodes.len(),
        ensures
            final(s)@ == old(s)@ + node_text(self@, node_i as int),
        decreases self@.nodes.len() - node_i,
    {
        let ghost t = self@;
        let ghost i = node_i as int;
        push_char(s, ';');
        self.write_actions(node_i, s);
        let ghost mid = s@;
        let kids = &self.nodes[node_i].children;
        let n = kids.len();
        assert(t.nodes[i].children == kids@);
        if n == 1 {
            let c = kids[0];
            assert(t.nodes[i].children[0] == c);
            assert(node_i < c < self@.nodes.len());
            self.stringify_node(c, s);
            assert(s@ =~= old(s)@ + node_text(t, i));
        } else {
            let mut k: usize = 0;
            assert(mid + kids_text(t, i, 0) =~= mid);
            while k < n
                invariant
                    self.wf(),
                    t == self@,
                    i == node_i as int,
                    node_i < self@.nodes.len(),
                    kids@ == t.nodes[i].children,
                    n == kids@.len(),
                    n != 1,
                    k <= n,
                    mid == old(s)@ + seq![';'] + acts_text(t.nodes[i].actions),
                    s@ == mid + kids_text(t, i, k as int),
                decreases n - k,
            {
                let c = kids[k];
                assert(t.nodes[i].children[k as int] == c);
                assert(node_i < c < self@.nodes.len());
                let ghost s0 = s@;
                push_char(s, '(');
                self.stringify_node(c, s);
                push_char(s, ')');
                assert(child_text(t, i, c as int) == node_text(t, c as int));
                assert(kids_text(t, i, k as int + 1) == kids_text(t, i, k as int) + seq!['('] + child_text(
                    t,
                    i,
                    c as int,
                ) + seq![')']);
                assert(s@ =~= s0 + seq!['('] + node_text(t, c as int) + seq![')']);
                assert(s@ =~= mid + kids_text(t, i, k as int + 1));
                k += 1;
            }
            assert(s@ =~= old(s)@ + node_text(t, i));
        }
    }

    /// The whole tree written as a game record.
    pub fn to_text(&self) -> (r: String)
        requires
            self.wf(),
        ensures
            r@ == seq!['('] + node_text(self@, 0) + seq![')'],
    {
        let mut s = String::new();
        push_char(&mut s, '(');
        self.stringify_node(0, &mut s);
        push_char(&mut s, ')');
        assert(s@ =~= seq!['('] + node_text(self@, 0) + seq![')']);
        s
    }
}

} // verus!
