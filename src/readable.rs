use vstd::prelude::*;
use vstd::string::StringExecFns;
use crate::history::opt_view;

verus! {

/// A node of a parsed HTML document, as far as text extraction reads it.
pub enum PageNode {
    /// A run of text.
    Text(String),
    /// An element, by its tag name, with its children in document order.
    Element { name: String, children: Vec<PageNode> },
    /// Anything else (a comment, a doctype): it holds no readable text.
    Other,
}

/// The readable text of a page.
pub struct ExtractedText {
    /// The text of the page's first `title` element, if it has one.
    pub title: Option<String>,
    /// The text of the page outside its title, scripts and styles.
    pub content: String,
}

/// All the text under a node, in document order.
pub open spec fn all_text(node: PageNode) -> Seq<char>
    decreases node,
{
    match node {
        PageNode::Text(t) => t@,
        PageNode::Element { children, .. } => all_text_of(children@),
        PageNode::Other => Seq::empty(),
    }
}

/// All the text under a sequence of nodes, in document order.
pub open spec fn all_text_of(nodes: Seq<PageNode>) -> Seq<char>
    decreases nodes,
{
    if nodes.len() == 0 {
        Seq::empty()
    } else {
        all_text_of(nodes.subrange(0, nodes.len() - 1)) + all_text(nodes[nodes.len() - 1])
    }
}

/// Whether an element's text is left out of the content: scripts and styles.
pub open spec fn is_hidden(name: Seq<char>) -> bool {
    name == "script"@ || name == "style"@
}

/// Extraction so far, as the title found (if any) and the content gathered.
pub type Extraction = (Option<Seq<char>>, Seq<char>);

/// Extraction after reading `node`, from the state `st`. Text is added to
/// the content. The first `title` element gives the title, and its text
/// stays out of the content; a later one is read like any element. Scripts
/// and styles are skipped; other elements are read child after child.
pub open spec fn walk(node: PageNode, st: Extraction) -> Extraction
    decreases node,
{
    match node {
        PageNode::Text(t) => (st.0, st.1 + t@),
        PageNode::Element { name, children } => {
            if name@ == "title"@ && st.0 is None {
                (Some(all_text_of(children@)), st.1)
            } else if !is_hidden(name@) {
                walk_all(children@, st)
            } else {
                st
            }
        },
        PageNode::Other => st,
    }
}

/// Extraction after reading `nodes` in order, from the state `st`.
pub open spec fn walk_all(nodes: Seq<PageNode>, st: Extraction) -> Extraction
    decreases nodes,
{
    if nodes.len() == 0 {
        st
    } else {
        walk(nodes[nodes.len() - 1], walk_all(nodes.subrange(0, nodes.len() - 1), st))
    }
}

/// Appends all the text under `node` to `out`.
fn collect_text(node: &PageNode, out: &mut String)
    ensures
        final(out)@ == old(out)@ + all_text(*node),
    decreases node,
{
    match node {
        PageNode::Text(t) => {
            out.append(t.as_str());
        },
        PageNode::Element { children, .. } => {
            let ghost start = out@;
            let mut i: usize = 0;
            while i < children.len()
                invariant
                    i <= children@.len(),
                    out@ == start + all_text_of(children@.subrange(0, i as int)),
                    *node is Element,
                    node->children == *children,
                decreases children@.len() - i,
            {
                proof {
                    assert(decreases_to!(*node => node->children));
                        assert(decreases_to!(node->children => node->children@));
                        assert(decreases_to!(node->children@ => node->children@[i as int]));
                        assert(decreases_to!(*node => children@[i as int]));
                }
                collect_text(&children[i], out);
                proof {
                    let s = children@.subrange(0, i + 1);
                    assert(s.subrange(0, s.len() - 1) =~= children@.subrange(0, i as int));
                    assert(s[s.len() - 1] == children@[i as int]);
                }
                i = i + 1;
            }
            proof {
                assert(children@.subrange(0, children@.len() as int) =~= children@);
            }
        },
        PageNode::Other => {
            assert(out@ =~= out@ + Seq::<char>::empty());
        },
    }
}

/// The state of an extraction in progress, as plain values.
pub open spec fn state_of(e: &ExtractedText) -> Extraction {
    (opt_view(e.title), e.content@)
}

/// Reads `node` into the extraction `e`, see `walk`.
fn walk_node(node: &PageNode, e: &mut ExtractedText)
    ensures
        state_of(final(e)) == walk(*node, state_of(old(e))),
    decreases node,
{
    match node {
        PageNode::Text(t) => {
            e.content.append(t.as_str());
        },
        PageNode::Element { name, children } => {
            proof {
                reveal_strlit("title");
                reveal_strlit("script");
                reveal_strlit("style");
            }
            let title_tag = String::from_str("title");
            let script_tag = String::from_str("script");
            let style_tag = String::from_str("style");
            if *name == title_tag && e.title.is_none() {
                let mut title = String::new();
                let mut i: usize = 0;
                while i < children.len()
                    invariant
                        i <= children@.len(),
                        title@ == all_text_of(children@.subrange(0, i as int)),
                    decreases children@.len() - i,
                {
                    collect_text(&children[i], &mut title);
                    proof {
                        let s = children@.subrange(0, i + 1);
                        assert(s.subrange(0, s.len() - 1) =~= children@.subrange(0, i as int));
                    }
                    i = i + 1;
                }
                proof {
                    assert(children@.subrange(0, children@.len() as int) =~= children@);
                }
                e.title = Some(title);
            } else if !(*name == script_tag) && !(*name == style_tag) {
                let ghost start = state_of(e);
                let mut i: usize = 0;
                while i < children.len()
                    invariant
                        i <= children@.len(),
                        state_of(e) == walk_all(children@.subrange(0, i as int), start),
                        *node is Element,
                        node->children == *children,
                    decreases children@.len() - i,
                {
                    proof {
                        assert(decreases_to!(*node => node->children));
                        assert(decreases_to!(node->children => node->children@));
                        assert(decreases_to!(node->children@ => node->children@[i as int]));
                        assert(decreases_to!(*node => children@[i as int]));
                    }
                    walk_node(&children[i], e);
                    proof {
                        let s = children@.subrange(0, i + 1);
                        assert(s.subrange(0, s.len() - 1) =~= children@.subrange(0, i as int));
                    }
                    i = i + 1;
                }
                proof {
                    assert(children@.subrange(0, children@.len() as int) =~= children@);
                }
            }
        },
        PageNode::Other => {},
    }
}

/// The readable text of a page whose root element is `root`: the text of
/// its first `title` element, and the text outside that title, scripts and
/// styles, see `walk`.
pub fn extract_readable_text(root: &PageNode) -> (r: ExtractedText)
    ensures
        state_of(&r) == walk(*root, (None, Seq::empty())),
{
    let mut extracted = ExtractedText { title: None, content: String::new() };
    walk_node(root, &mut extracted);
    extracted
}

} // verus!
