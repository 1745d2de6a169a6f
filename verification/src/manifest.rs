//! Funding manifests: from the text of a `FUNDING.yml` to the addresses it
//! declares.
//!
//! The text is read by `yaml_rust`. A node that it hands back stays opaque:
//! contracts speak of it through its view, a tree of plain values, and
//! everything that is decided about a node (which shape it has, which
//! platform a key names, which address belongs to it) is decided here.
//!
//! The reader goes one call deeper for each collection that lies inside
//! another, and so does whoever copies or drops what it built. A text is
//! therefore handed to it only where the tree that it builds is no deeper
//! than [`MAX_DEPTH`]. How deep the tree gets is measured beforehand, on the
//! events that the same crate's parser gives for the text, which it gives
//! without descending. A text beyond the limit is not read and declares
//! nothing.

use vstd::prelude::*;
use std::collections::HashMap;
use yaml_rust::parser::Parser;
use yaml_rust::Event;
use yaml_rust::Yaml;
use yaml_rust::YamlLoader;
use yaml_rust::ScanError;
use crate::text::same_text;
use crate::text::texts;

verus! {

/// `yaml_rust::Yaml`, a node of a document. Nothing of its inside is known
/// here.
#[verifier::external_type_specification]
#[verifier::external_body]
pub struct ExYaml(yaml_rust::Yaml);

/// `yaml_rust::ScanError`, with which a text is rejected.
#[verifier::external_type_specification]
#[verifier::external_body]
pub struct ExScanError(yaml_rust::ScanError);

/// A node of a document as a tree of plain values.
pub enum NodeView {
    /// A string node and its text.
    Text(Seq<char>),
    /// A sequence node and its items, in order.
    List(Seq<NodeView>),
    /// A mapping node and the key and value of each entry, in the order in
    /// which the mapping walks them.
    Table(Seq<(NodeView, NodeView)>),
    /// A node of any other kind: a number, a boolean, null, an alias, a bad
    /// value.
    Other,
}

/// What a node holds.
pub uninterp spec fn yaml_view(node: Yaml) -> NodeView;

/// What `yaml_rust` reads from a text: the documents in it, in order, or
/// `None` where it rejects the text.
pub uninterp spec fn yaml_documents(text: Seq<char>) -> Option<Seq<NodeView>>;

/// What each node of a sequence holds.
pub open spec fn node_views(nodes: Seq<Yaml>) -> Seq<NodeView> {
    Seq::new(nodes.len(), |i: int| yaml_view(nodes[i]))
}

/// What the key and the value of each entry hold.
pub open spec fn entry_views(entries: Seq<(Yaml, Yaml)>) -> Seq<(NodeView, NodeView)> {
    Seq::new(entries.len(), |i: int| (yaml_view(entries[i].0), yaml_view(entries[i].1)))
}

/// An event of the parser, as far as it tells how deep the tree gets. An
/// anchor is a number above zero by which a later alias finds the node; zero
/// stands for no anchor.
#[derive(Debug, Clone, Copy, PartialEq, Eq)]
pub enum NodeEvent {
    /// A sequence or a mapping starts, with its anchor.
    Open(usize),
    /// A sequence or a mapping ends.
    Close,
    /// A scalar, with its anchor.
    Scalar(usize),
    /// An alias: a copy of the node with this anchor stands here.
    Alias(usize),
    /// Any other event: the start or end of a document or of the stream.
    Other,
}

/// The events that `yaml_rust`'s parser gives for a text, in order, up to the
/// end of the stream or to the first error.
pub uninterp spec fn yaml_events(text: Seq<char>) -> Seq<NodeEvent>;

/// Runs `Parser::next` over the text until the stream ends or an error comes,
/// and hands the events out. Trusted: the result is what `yaml_events` names
/// for the text.
#[verifier::external_body]
fn scan_events(text: &str) -> (r: Vec<NodeEvent>)
    ensures
        r@ == yaml_events(text@),
{
    let mut parser = Parser::new(text.chars());
    std::iter::from_fn(|| parser.next().ok())
        .take_while(|(event, _)| *event != Event::StreamEnd)
        .map(|(event, _)| match event {
            Event::SequenceStart(anchor) | Event::MappingStart(anchor) => NodeEvent::Open(anchor),
            Event::SequenceEnd | Event::MappingEnd => NodeEvent::Close,
            Event::Scalar(_, _, anchor, _) => NodeEvent::Scalar(anchor),
            Event::Alias(anchor) => NodeEvent::Alias(anchor),
            _ => NodeEvent::Other,
        })
        .collect()
}

/// The deepest that a tree may be and still be built.
pub const MAX_DEPTH: usize = 128;

/// What is known of the depth of a tree while its events pass. A scalar has
/// depth zero, and a collection is one deeper than its deepest item.
pub struct Depths {
    /// For each collection that is open, the outermost first: its anchor and
    /// the depth of its deepest item so far.
    pub open: Seq<(usize, nat)>,
    /// The depth of each anchored node that is complete, by its anchor.
    pub anchored: Map<usize, nat>,
    /// The deepest so far: the most collections that were open at once, and
    /// the depth of the deepest node that is complete.
    pub deepest: nat,
}

/// What is known after a node of depth `depth` was completed: the collection
/// that it lies in is at least that deep inside, and an alias finds the node
/// by its anchor.
pub open spec fn node_done(s: Depths, anchor: usize, depth: nat) -> Depths {
    Depths {
        open: if s.open.len() > 0 && s.open.last().1 < depth {
            s.open.update(s.open.len() - 1, (s.open.last().0, depth))
        } else {
            s.open
        },
        anchored: if anchor > 0 {
            s.anchored.insert(anchor, depth)
        } else {
            s.anchored
        },
        deepest: if depth > s.deepest {
            depth
        } else {
            s.deepest
        },
    }
}

/// What is known after one more event. An alias stands for a copy of the
/// node that it names, and is as deep as that node; where no complete node
/// has the anchor, nothing of any depth stands there.
pub open spec fn after_event(s: Depths, event: NodeEvent) -> Depths {
    match event {
        NodeEvent::Open(anchor) => Depths {
            open: s.open.push((anchor, 0)),
            anchored: s.anchored,
            deepest: if s.open.len() + 1 > s.deepest {
                s.open.len() + 1
            } else {
                s.deepest
            },
        },
        NodeEvent::Close => if s.open.len() > 0 {
            node_done(
                Depths { open: s.open.drop_last(), anchored: s.anchored, deepest: s.deepest },
                s.open.last().0,
                s.open.last().1 + 1,
            )
        } else {
            s
        },
        NodeEvent::Scalar(anchor) => node_done(s, anchor, 0),
        NodeEvent::Alias(anchor) => node_done(
            s,
            0,
            if s.anchored.contains_key(anchor) {
                s.anchored[anchor]
            } else {
                0
            },
        ),
        NodeEvent::Other => s,
    }
}

/// What is known after the first `n` events.
pub open spec fn after_events(events: Seq<NodeEvent>, n: int) -> Depths
    decreases n,
{
    if n <= 0 {
        Depths { open: Seq::empty(), anchored: Map::empty(), deepest: 0 }
    } else {
        after_event(after_events(events, n - 1), events[n - 1])
    }
}

/// The depth of the deepest tree that is built from the events, with each
/// alias replaced by what it stands for; and at least the most collections
/// that are open at once.
pub open spec fn tree_depth(events: Seq<NodeEvent>) -> nat {
    after_events(events, events.len() as int).deepest
}

/// The tree that the text describes is shallow enough to be built.
pub open spec fn within_depth_limit(text: Seq<char>) -> bool {
    tree_depth(yaml_events(text)) <= MAX_DEPTH
}

/// The vectors and the table hold what is known.
spec fn mirrors(
    open: Seq<(usize, usize)>,
    anchored: Map<usize, usize>,
    deepest: usize,
    s: Depths,
) -> bool {
    &&& open.len() == s.open.len()
    &&& forall|j: int|
        0 <= j < open.len() ==> (#[trigger] open[j]).0 == s.open[j].0 && open[j].1 == s.open[j].1
    &&& forall|k: usize| anchored.contains_key(k) == #[trigger] s.anchored.contains_key(k)
    &&& forall|k: usize| #[trigger] anchored.contains_key(k) ==> anchored[k] == s.anchored[k]
    &&& deepest == s.deepest
}

/// No depth is greater than the number of collections that are complete.
spec fn bounded(s: Depths, closed: nat) -> bool {
    &&& forall|j: int| 0 <= j < s.open.len() ==> (#[trigger] s.open[j]).1 <= closed
    &&& forall|k: usize| #[trigger] s.anchored.contains_key(k) ==> s.anchored[k] <= closed
    &&& s.deepest <= closed + s.open.len()
}

/// The depth of the deepest tree that is built from the events.
pub fn measure_depth(events: &Vec<NodeEvent>) -> (depth: usize)
    ensures
        depth == tree_depth(events@),
{
    broadcast use vstd::std_specs::hash::group_hash_axioms;

    let mut open: Vec<(usize, usize)> = Vec::new();
    let mut anchored: HashMap<usize, usize> = HashMap::new();
    let mut deepest: usize = 0;
    let ghost mut closed: nat = 0;
    let mut i: usize = 0;
    while i < events.len()
        invariant
            i <= events.len(),
            closed + open@.len() <= i,
            mirrors(open@, anchored@, deepest, after_events(events@, i as int)),
            bounded(after_events(events@, i as int), closed),
        decreases events.len() - i,
    {
        let ghost before = after_events(events@, i as int);
        let ghost mut middle = before;
        let done: Option<(usize, usize)> = match events[i] {
            NodeEvent::Open(anchor) => {
                open.push((anchor, 0));
                if open.len() > deepest {
                    deepest = open.len();
                }
                None
            },
            NodeEvent::Close => {
                match open.pop() {
                    Some(inner) => {
                        proof {
                            middle =
                            Depths {
                                open: before.open.drop_last(),
                                anchored: before.anchored,
                                deepest: before.deepest,
                            };
                            assert(before.open.last().1 <= closed);
                            closed = closed + 1;
                        }
                        Some((inner.0, inner.1 + 1))
                    },
                    None => None,
                }
            },
            NodeEvent::Scalar(anchor) => Some((anchor, 0)),
            NodeEvent::Alias(anchor) => {
                match anchored.get(&anchor) {
                    Some(depth) => Some((0, *depth)),
                    None => Some((0, 0)),
                }
            },
            NodeEvent::Other => None,
        };
        match done {
            Some((anchor, depth)) => {
                assert(mirrors(open@, anchored@, deepest, middle));
                assert(bounded(middle, closed));
                assert(depth <= closed);
                assert(after_event(before, events@[i as int]) == node_done(middle, anchor, depth as nat));
                let n = open.len();
                if n > 0 && open[n - 1].1 < depth {
                    let outer = open[n - 1].0;
                    open.set(n - 1, (outer, depth));
                }
                if anchor > 0 {
                    anchored.insert(anchor, depth);
                }
                if depth > deepest {
                    deepest = depth;
                }
            },
            None => {},
        }
        i += 1;
    }
    deepest
}

/// Whether the tree that the events describe is no deeper than
/// [`MAX_DEPTH`].
pub fn is_shallow(events: &Vec<NodeEvent>) -> (ok: bool)
    ensures
        ok == (tree_depth(events@) <= MAX_DEPTH),
{
    measure_depth(events) <= MAX_DEPTH
}

/// Whether the tree that the text describes is shallow enough to be built.
pub fn depth_within_limit(text: &str) -> (ok: bool)
    ensures
        ok == within_depth_limit(text@),
{
    let events = scan_events(text);
    is_shallow(&events)
}

/// Calls `YamlLoader::load_from_str`, on a text whose tree is within the
/// depth limit. Trusted: an `Ok` carries the documents that `yaml_documents`
/// names for this text, and an `Err` comes exactly where `yaml_documents` is
/// `None`.
#[verifier::external_body]
fn load_documents(text: &str) -> (r: Result<Vec<Yaml>, ScanError>)
    requires
        within_depth_limit(text@),
    ensures
        match r {
            Ok(docs) => yaml_documents(text@) == Some(node_views(docs@)),
            Err(_) => yaml_documents(text@) is None,
        },
{
    YamlLoader::load_from_str(text)
}

/// Calls `Yaml::as_str`. Trusted: a string node gives its text, and every
/// other node gives `None`.
#[verifier::external_body]
fn node_text(node: &Yaml) -> (r: Option<&str>)
    ensures
        match r {
            Some(s) => yaml_view(*node) == NodeView::Text(s@),
            None => !(yaml_view(*node) is Text),
        },
{
    node.as_str()
}

/// Calls `Yaml::as_vec`. Trusted: a sequence node gives its items, and every
/// other node gives `None`.
#[verifier::external_body]
fn node_items(node: &Yaml) -> (r: Option<&Vec<Yaml>>)
    ensures
        match r {
            Some(items) => yaml_view(*node) == NodeView::List(node_views(items@)),
            None => !(yaml_view(*node) is List),
        },
{
    node.as_vec()
}

/// Calls `Yaml::as_hash` and copies the entries out in the order in which the
/// mapping walks them. Trusted: a mapping node gives its entries, and every
/// other node gives `None`.
#[verifier::external_body]
fn node_entries(node: &Yaml) -> (r: Option<Vec<(Yaml, Yaml)>>)
    ensures
        match r {
            Some(entries) => yaml_view(*node) == NodeView::Table(entry_views(entries@)),
            None => !(yaml_view(*node) is Table),
        },
{
    node.as_hash().map(|h| h.iter().map(|(k, v)| (k.clone(), v.clone())).collect())
}

/// What a manifest node is, as far as the platform rules look at it.
#[derive(Debug, PartialEq, Eq)]
pub enum ManifestValue {
    /// One string.
    Scalar(String),
    /// A list whose items are all strings.
    List(Vec<String>),
    /// Anything else.
    Other,
}

/// The mathematical value of a [`ManifestValue`].
pub enum ValueShape {
    /// One string.
    Scalar(Seq<char>),
    /// A list of strings, in order.
    List(Seq<Seq<char>>),
    /// Anything else.
    Other,
}

impl View for ManifestValue {
    type V = ValueShape;

    open spec fn view(&self) -> ValueShape {
        match self {
            ManifestValue::Scalar(s) => ValueShape::Scalar(s@),
            ManifestValue::List(items) => ValueShape::List(texts(items@)),
            ManifestValue::Other => ValueShape::Other,
        }
    }
}

/// Every item of the sequence is a string node.
pub open spec fn all_text(items: Seq<NodeView>) -> bool {
    forall|i: int| 0 <= i < items.len() ==> (#[trigger] items[i]) is Text
}

/// The text of a string node.
pub open spec fn text_of(node: NodeView) -> Seq<char> {
    match node {
        NodeView::Text(s) => s,
        _ => Seq::empty(),
    }
}

/// The texts of a sequence of string nodes.
pub open spec fn item_texts(items: Seq<NodeView>) -> Seq<Seq<char>> {
    Seq::new(items.len(), |i: int| text_of(items[i]))
}

/// The shape of a node: a string node is a scalar, a sequence of string nodes
/// is a list, and every other node is neither.
pub open spec fn node_shape(node: NodeView) -> ValueShape {
    match node {
        NodeView::Text(s) => ValueShape::Scalar(s),
        NodeView::List(items) => if all_text(items) {
            ValueShape::List(item_texts(items))
        } else {
            ValueShape::Other
        },
        _ => ValueShape::Other,
    }
}

/// Reads the shape of a node.
pub fn manifest_value(node: &Yaml) -> (value: ManifestValue)
    ensures
        value@ == node_shape(yaml_view(*node)),
{
    if let Some(s) = node_text(node) {
        return ManifestValue::Scalar(s.to_owned());
    }
    match node_items(node) {
        Some(items) => {
            let ghost views = node_views(items@);
            let mut found: Vec<String> = Vec::new();
            let mut i: usize = 0;
            while i < items.len()
                invariant
                    yaml_view(*node) == NodeView::List(views),
                    views == node_views(items@),
                    i <= items.len(),
                    found.len() == i,
                    forall|k: int|
                        0 <= k < i ==> (#[trigger] views[k]) == NodeView::Text(found@[k]@),
                decreases items.len() - i,
            {
                match node_text(&items[i]) {
                    Some(s) => found.push(s.to_owned()),
                    None => {
                        assert(!(views[i as int] is Text));
                        return ManifestValue::Other;
                    },
                }
                i += 1;
            }
            assert(all_text(views));
            assert(texts(found@) =~= item_texts(views));
            ManifestValue::List(found)
        },
        None => ManifestValue::Other,
    }
}

/// The address under which a platform that takes one identifier lists it,
/// without the identifier; `None` for every other key.
pub open spec fn scalar_prefix(platform: Seq<char>) -> Option<Seq<char>> {
    if platform == "patreon"@ {
        Some("https://www.patreon.com/"@)
    } else if platform == "open_collective"@ {
        Some("https://opencollective.com/"@)
    } else if platform == "ko_fi"@ {
        Some("https://ko-fi.com/"@)
    } else if platform == "tidelift"@ {
        Some("https://tidelift.com/funding/github/"@)
    } else if platform == "community_bridge"@ {
        Some("https://funding.communitybridge.org/projects/"@)
    } else if platform == "liberapay"@ {
        Some("https://liberapay.com/"@)
    } else if platform == "issuehunt"@ {
        Some("https://issuehunt.io/r/"@)
    } else if platform == "otechie"@ {
        Some("https://otechie.com/"@)
    } else if platform == "lfx_crowdfunding"@ {
        Some("https://crowdfunding.lfx.linuxfoundation.org/projects/"@)
    } else {
        None
    }
}

/// Each item with `prefix` before it.
pub open spec fn prefixed(prefix: Seq<char>, items: Seq<Seq<char>>) -> Seq<Seq<char>> {
    Seq::new(items.len(), |i: int| prefix + items[i])
}

/// The addresses that one entry of a manifest declares, in order.
///
/// `github` takes a list of user names and `custom` a list of addresses; the
/// other platforms take one identifier. A key that is no string, a key that
/// names no platform, and a value of another shape than the platform takes
/// declare nothing.
pub open spec fn support_urls(key: ValueShape, value: ValueShape) -> Seq<Seq<char>> {
    match key {
        ValueShape::Scalar(platform) => match value {
            ValueShape::List(items) => if platform == "github"@ {
                prefixed("https://github.com/sponsors/"@, items)
            } else if platform == "custom"@ {
                items
            } else {
                Seq::empty()
            },
            ValueShape::Scalar(id) => match scalar_prefix(platform) {
                Some(prefix) => seq![prefix + id],
                None => Seq::empty(),
            },
            ValueShape::Other => Seq::empty(),
        },
        _ => Seq::empty(),
    }
}

/// The prefix of a platform that takes one identifier, if `platform` names
/// one.
pub fn scalar_platform_prefix(platform: &str) -> (r: Option<&'static str>)
    ensures
        match r {
            Some(prefix) => scalar_prefix(platform@) == Some(prefix@),
            None => scalar_prefix(platform@) is None,
        },
{
    if same_text(platform, "patreon") {
        Some("https://www.patreon.com/")
    } else if same_text(platform, "open_collective") {
        Some("https://opencollective.com/")
    } else if same_text(platform, "ko_fi") {
        Some("https://ko-fi.com/")
    } else if same_text(platform, "tidelift") {
        Some("https://tidelift.com/funding/github/")
    } else if same_text(platform, "community_bridge") {
        Some("https://funding.communitybridge.org/projects/")
    } else if same_text(platform, "liberapay") {
        Some("https://liberapay.com/")
    } else if same_text(platform, "issuehunt") {
        Some("https://issuehunt.io/r/")
    } else if same_text(platform, "otechie") {
        Some("https://otechie.com/")
    } else if same_text(platform, "lfx_crowdfunding") {
        Some("https://crowdfunding.lfx.linuxfoundation.org/projects/")
    } else {
        None
    }
}

/// Appends each item to `urls`, with `prefix` before it.
fn push_prefixed(prefix: &str, items: &Vec<String>, urls: &mut Vec<String>)
    ensures
        texts(final(urls)@) == texts(old(urls)@) + prefixed(prefix@, texts(items@)),
{
    let mut i: usize = 0;
    while i < items.len()
        invariant
            i <= items.len(),
            texts(urls@) == texts(old(urls)@) + prefixed(prefix@, texts(items@)).take(i as int),
        decreases items.len() - i,
    {
        let ghost before = texts(urls@);
        let url = String::from_str(prefix).concat(items[i].as_str());
        urls.push(url);
        assert(texts(urls@) =~= before.push(prefix@ + items@[i as int]@));
        assert(prefixed(prefix@, texts(items@)).take(i + 1) =~= prefixed(
            prefix@,
            texts(items@),
        ).take(i as int).push(prefix@ + items@[i as int]@));
        i += 1;
    }
    assert(prefixed(prefix@, texts(items@)).take(items.len() as int) =~= prefixed(
        prefix@,
        texts(items@),
    ));
}

/// Appends to `urls` the addresses that one entry of a manifest declares.
pub fn construct_support_url(key: &ManifestValue, value: &ManifestValue, urls: &mut Vec<String>)
    ensures
        texts(final(urls)@) == texts(old(urls)@) + support_urls(key@, value@),
{
    let ghost before = texts(urls@);
    match key {
        ManifestValue::Scalar(platform) => {
            match value {
                ManifestValue::List(items) => {
                    if same_text(platform.as_str(), "github") {
                        push_prefixed("https://github.com/sponsors/", items, urls);
                    } else if same_text(platform.as_str(), "custom") {
                        push_prefixed("", items, urls);
                        proof {
                            reveal_strlit("");
                            assert(prefixed(""@, texts(items@)) =~= texts(items@)) by {
                                assert forall|i: int| 0 <= i < items@.len() implies ""@
                                    + texts(items@)[i] == texts(items@)[i] by {
                                    assert(""@ + texts(items@)[i] =~= texts(items@)[i]);
                                }
                            }
                        }
                    } else {
                        assert(before + Seq::<Seq<char>>::empty() =~= before);
                    }
                },
                ManifestValue::Scalar(id) => {
                    match scalar_platform_prefix(platform.as_str()) {
                        Some(prefix) => {
                            let url = String::from_str(prefix).concat(id.as_str());
                            urls.push(url);
                            assert(texts(urls@) =~= before + seq![prefix@ + id@]);
                        },
                        None => {
                            assert(before + Seq::<Seq<char>>::empty() =~= before);
                        },
                    }
                },
                ManifestValue::Other => {
                    assert(before + Seq::<Seq<char>>::empty() =~= before);
                },
            }
        },
        _ => {
            assert(before + Seq::<Seq<char>>::empty() =~= before);
        },
    }
}

/// The addresses that the entries of a mapping declare, entry by entry in
/// the order of the entries.
pub open spec fn entries_urls(entries: Seq<(NodeView, NodeView)>) -> Seq<Seq<char>>
    decreases entries.len(),
{
    if entries.len() == 0 {
        Seq::empty()
    } else {
        entries_urls(entries.drop_last()) + support_urls(
            node_shape(entries.last().0),
            node_shape(entries.last().1),
        )
    }
}

/// The addresses that one document declares: those of its entries where the
/// document is a mapping, and none where it is anything else.
pub open spec fn document_urls(doc: NodeView) -> Seq<Seq<char>> {
    match doc {
        NodeView::Table(entries) => entries_urls(entries),
        _ => Seq::empty(),
    }
}

/// The addresses that a sequence of documents declares, document by document.
pub open spec fn documents_urls(docs: Seq<NodeView>) -> Seq<Seq<char>>
    decreases docs.len(),
{
    if docs.len() == 0 {
        Seq::empty()
    } else {
        documents_urls(docs.drop_last()) + document_urls(docs.last())
    }
}

/// The addresses that the text of a manifest declares, or `None` where the
/// text cannot be read as a manifest: where the reader rejects it, or where
/// the tree that it describes is too deep to be built.
pub open spec fn manifest_urls(text: Seq<char>) -> Option<Seq<Seq<char>>> {
    if within_depth_limit(text) {
        match yaml_documents(text) {
            Some(docs) => Some(documents_urls(docs)),
            None => None,
        }
    } else {
        None
    }
}

/// Appends to `urls` the addresses that one document declares.
pub fn push_document_urls(doc: &Yaml, urls: &mut Vec<String>)
    ensures
        texts(final(urls)@) == texts(old(urls)@) + document_urls(yaml_view(*doc)),
{
    let ghost before = texts(urls@);
    match node_entries(doc) {
        Some(entries) => {
            let ghost views = entry_views(entries@);
            let mut i: usize = 0;
            assert(before + entries_urls(views.take(0)) =~= before);
            while i < entries.len()
                invariant
                    i <= entries.len(),
                    views == entry_views(entries@),
                    texts(urls@) == before + entries_urls(views.take(i as int)),
                decreases entries.len() - i,
            {
                let key = manifest_value(&entries[i].0);
                let value = manifest_value(&entries[i].1);
                construct_support_url(&key, &value, urls);
                proof {
                    let done = views.take(i + 1);
                    assert(done.drop_last() =~= views.take(i as int));
                    assert(done.last() == views[i as int]);
                    assert(texts(urls@) =~= before + entries_urls(done));
                }
                i += 1;
            }
            assert(views.take(entries.len() as int) =~= views);
        },
        None => {
            assert(before + Seq::<Seq<char>>::empty() =~= before);
        },
    }
}

/// Reads the text of a funding manifest and returns the addresses that it
/// declares, in the order in which it declares them. A text that cannot be
/// read as a manifest gives `None`, and so does a text that describes a
/// tree deeper than [`MAX_DEPTH`], which is not read.
pub fn parse_funding_yaml(file_c: &str) -> (r: Option<Vec<String>>)
    ensures
        match r {
            Some(urls) => manifest_urls(file_c@) == Some(texts(urls@)),
            None => manifest_urls(file_c@) is None,
        },
{
    if !depth_within_limit(file_c) {
        return None;
    }
    match load_documents(file_c) {
        Ok(docs) => {
            let ghost views = node_views(docs@);
            let mut support_urls: Vec<String> = Vec::new();
            let mut i: usize = 0;
            assert(texts(support_urls@) =~= documents_urls(views.take(0)));
            while i < docs.len()
                invariant
                    i <= docs.len(),
                    views == node_views(docs@),
                    texts(support_urls@) == documents_urls(views.take(i as int)),
                decreases docs.len() - i,
            {
                push_document_urls(&docs[i], &mut support_urls);
                proof {
                    let done = views.take(i + 1);
                    assert(done.drop_last() =~= views.take(i as int));
                    assert(done.last() == views[i as int]);
                }
                i += 1;
            }
            assert(views.take(docs.len() as int) =~= views);
            Some(support_urls)
        },
        Err(_) => None,
    }
}

/// A text that cannot be read declares nothing, and says so by `None`:
/// whether the reader rejects it or it describes a tree too deep to be
/// built.
pub proof fn lemma_rejected_text(text: Seq<char>)
    requires
        yaml_documents(text) is None || !within_depth_limit(text),
    ensures
        manifest_urls(text) is None,
{
}

/// A platform that takes one identifier declares exactly one address for a
/// string value: its prefix followed by the value. For `patreon` this is
/// `https://www.patreon.com/` followed by the value.
pub proof fn lemma_scalar_entry(platform: Seq<char>, id: Seq<char>)
    ensures
        scalar_prefix(platform) is Some ==> support_urls(
            ValueShape::Scalar(platform),
            ValueShape::Scalar(id),
        ) == seq![scalar_prefix(platform).unwrap() + id],
        support_urls(ValueShape::Scalar("patreon"@), ValueShape::Scalar(id)) == seq![
            "https://www.patreon.com/"@ + id,
        ],
{
}

/// A `github` entry with a list of user names declares one sponsors address
/// for each name, in the order of the names.
pub proof fn lemma_github_entry(names: Seq<Seq<char>>)
    ensures
        support_urls(ValueShape::Scalar("github"@), ValueShape::List(names)).len() == names.len(),
        forall|i: int|
            0 <= i < names.len() ==> #[trigger] support_urls(
                ValueShape::Scalar("github"@),
                ValueShape::List(names),
            )[i] == "https://github.com/sponsors/"@ + names[i],
{
}

/// The addresses of a mapping's entries stand in the result in the order of
/// the entries: those of the entries before position `at`, then those of the
/// entry at `at`, then those of the entries behind it.
pub proof fn lemma_entries_in_order(entries: Seq<(NodeView, NodeView)>, at: int)
    requires
        0 <= at < entries.len(),
    ensures
        entries_urls(entries) == entries_urls(entries.take(at)) + support_urls(
            node_shape(entries[at].0),
            node_shape(entries[at].1),
        ) + entries_urls(entries.skip(at + 1)),
    decreases entries.len(),
{
    let here = support_urls(node_shape(entries[at].0), node_shape(entries[at].1));
    if at == entries.len() - 1 {
        assert(entries.take(at) =~= entries.drop_last());
        assert(entries.skip(at + 1) =~= Seq::<(NodeView, NodeView)>::empty());
        assert(entries_urls(entries) =~= entries_urls(entries.take(at)) + here + entries_urls(
            entries.skip(at + 1),
        ));
    } else {
        let front = entries.drop_last();
        lemma_entries_in_order(front, at);
        assert(front.take(at) =~= entries.take(at));
        assert(front[at] == entries[at]);
        assert(entries.skip(at + 1).drop_last() =~= front.skip(at + 1));
        assert(entries.skip(at + 1).last() == entries.last());
        assert(entries_urls(entries) =~= entries_urls(entries.take(at)) + here + entries_urls(
            entries.skip(at + 1),
        ));
    }
}

/// A manifest within the depth limit, of one document that is a mapping,
/// declares the addresses of the mapping's entries, entry by entry.
pub proof fn lemma_single_document(text: Seq<char>, entries: Seq<(NodeView, NodeView)>)
    requires
        within_depth_limit(text),
        yaml_documents(text) == Some(seq![NodeView::Table(entries)]),
    ensures
        manifest_urls(text) == Some(entries_urls(entries)),
{
    let docs = seq![NodeView::Table(entries)];
    assert(docs.drop_last() =~= Seq::<NodeView>::empty());
    assert(documents_urls(docs.drop_last()) =~= Seq::<Seq<char>>::empty());
    assert(documents_urls(docs) =~= entries_urls(entries));
}

/// A manifest within the depth limit whose mapping holds the entry
/// `patreon: id` declares the address `https://www.patreon.com/` followed by
/// `id`, once for that entry, between what the entries before it and the
/// entries behind it declare. Where the entry is the only one, the address
/// is all that the manifest declares.
pub proof fn lemma_patreon_manifest(
    text: Seq<char>,
    entries: Seq<(NodeView, NodeView)>,
    at: int,
    id: Seq<char>,
)
    requires
        within_depth_limit(text),
        yaml_documents(text) == Some(seq![NodeView::Table(entries)]),
        0 <= at < entries.len(),
        entries[at] == (NodeView::Text("patreon"@), NodeView::Text(id)),
    ensures
        manifest_urls(text) == Some(
            entries_urls(entries.take(at)) + seq!["https://www.patreon.com/"@ + id] + entries_urls(
                entries.skip(at + 1),
            ),
        ),
        entries.len() == 1 ==> manifest_urls(text) == Some(seq!["https://www.patreon.com/"@ + id]),
{
    lemma_single_document(text, entries);
    lemma_entries_in_order(entries, at);
    lemma_scalar_entry("patreon"@, id);
    if entries.len() == 1 {
        assert(entries.take(at) =~= Seq::<(NodeView, NodeView)>::empty());
        assert(entries.skip(at + 1) =~= Seq::<(NodeView, NodeView)>::empty());
        assert(entries_urls(entries) =~= seq!["https://www.patreon.com/"@ + id]);
    }
}

/// A manifest within the depth limit whose mapping holds the entry
/// `github` with a list of user names declares one sponsors address for each
/// name, in the order of the names, between what the entries before it and
/// the entries behind it declare. Where the entry is the only one, these
/// addresses are all that the manifest declares.
pub proof fn lemma_github_manifest(
    text: Seq<char>,
    entries: Seq<(NodeView, NodeView)>,
    at: int,
    names: Seq<NodeView>,
)
    requires
        within_depth_limit(text),
        yaml_documents(text) == Some(seq![NodeView::Table(entries)]),
        0 <= at < entries.len(),
        entries[at] == (NodeView::Text("github"@), NodeView::List(names)),
        all_text(names),
    ensures
        manifest_urls(text) == Some(
            entries_urls(entries.take(at)) + prefixed(
                "https://github.com/sponsors/"@,
                item_texts(names),
            ) + entries_urls(entries.skip(at + 1)),
        ),
        entries.len() == 1 ==> manifest_urls(text) == Some(
            prefixed("https://github.com/sponsors/"@, item_texts(names)),
        ),
{
    lemma_single_document(text, entries);
    lemma_entries_in_order(entries, at);
    if entries.len() == 1 {
        assert(entries.take(at) =~= Seq::<(NodeView, NodeView)>::empty());
        assert(entries.skip(at + 1) =~= Seq::<(NodeView, NodeView)>::empty());
        assert(entries_urls(entries) =~= prefixed(
            "https://github.com/sponsors/"@,
            item_texts(names),
        ));
    }
}

} // verus!
