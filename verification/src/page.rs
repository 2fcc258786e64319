//! What the shop's page holds: its elements, and the parts of them that the
//! detector reads.

use scraper::{ElementRef, Html, Selector};
use vstd::prelude::*;

use crate::text;

verus! {

// ---------------------------------------------------------------------------
// The document tree
// ---------------------------------------------------------------------------

/// A node of the parsed page with everything below it.
pub enum Tree {
    /// An element: its local name, its attributes as pairs of a local name and
    /// a value, and its children in document order.
    Element { name: Seq<char>, attrs: Seq<(Seq<char>, Seq<char>)>, children: Seq<Tree> },
    /// A run of text.
    Text(Seq<char>),
    /// A comment, a doctype or a processing instruction.
    Other,
}

/// The children of a node.
pub open spec fn children(node: Tree) -> Seq<Tree> {
    match node {
        Tree::Element { children, .. } => children,
        _ => Seq::empty(),
    }
}

/// The text of a node: every run of text in it, in document order.
pub open spec fn text_of(node: Tree) -> Seq<char>
    decreases node,
{
    match node {
        Tree::Element { children, .. } => text_of_all(children),
        Tree::Text(s) => s,
        Tree::Other => Seq::empty(),
    }
}

/// The texts of the nodes, one after the other.
pub open spec fn text_of_all(nodes: Seq<Tree>) -> Seq<char>
    decreases nodes,
{
    if nodes.len() == 0 {
        Seq::empty()
    } else {
        text_of(nodes[0]) + text_of_all(nodes.subrange(1, nodes.len() as int))
    }
}

/// The nodes and everything below each of them, in document order.
pub open spec fn in_order(nodes: Seq<Tree>) -> Seq<Tree>
    decreases nodes,
{
    if nodes.len() == 0 {
        Seq::empty()
    } else {
        in_order_from(nodes[0]) + in_order(nodes.subrange(1, nodes.len() as int))
    }
}

/// The node and everything below it, in document order.
pub open spec fn in_order_from(node: Tree) -> Seq<Tree>
    decreases node,
{
    match node {
        Tree::Element { children, .. } => seq![node] + in_order(children),
        _ => seq![node],
    }
}

/// The value of the first attribute called `name`.
pub open spec fn attribute(attrs: Seq<(Seq<char>, Seq<char>)>, name: Seq<char>) -> Option<Seq<char>>
    decreases attrs.len(),
{
    if attrs.len() == 0 {
        None
    } else if attrs[0].0 == name {
        Some(attrs[0].1)
    } else {
        attribute(attrs.skip(1), name)
    }
}

/// The id of an element.
pub open spec fn id_of(node: Tree) -> Option<Seq<char>> {
    match node {
        Tree::Element { attrs, .. } => attribute(attrs, "id"@),
        _ => None,
    }
}

/// Whether a class list is split at `c`.
pub open spec fn splits_classes(c: char) -> bool {
    c == ' ' || c == '\t' || c == '\n' || c == '\u{c}' || c == '\r'
}

/// Whether the class list `value` names `class`.
pub open spec fn names_class(value: Seq<char>, class: Seq<char>) -> bool {
    exists|i: int|
        {
            &&& #[trigger] text::occurs_at(value, class, i)
            &&& i == 0 || splits_classes(value[i - 1])
            &&& i + class.len() == value.len() || splits_classes(value[i + class.len()])
        }
}

/// Whether a node is an element with `class` among its classes.
pub open spec fn has_class(node: Tree, class: Seq<char>) -> bool {
    node matches Tree::Element { attrs, .. } && exists|i: int|
        0 <= i < attrs.len() && (#[trigger] attrs[i]).0 == "class"@ && names_class(
            attrs[i].1,
            class,
        )
}

/// Whether a node is an element called `name`.
pub open spec fn is_called(node: Tree, name: Seq<char>) -> bool {
    node matches Tree::Element { name: found, .. } && found == name
}

// ---------------------------------------------------------------------------
// Selectors
// ---------------------------------------------------------------------------

pub const CARD: &'static str = "div.card";

pub const CARD_HEADER: &'static str = ".card-header";

pub const TICKET_FRAME: &'static str = "turbo-frame#ticket_detail";

pub const DANGER: &'static str = "div.alert-danger";

pub const SWAP_ITEM: &'static str = "li[id^=\"voucher_swap_\"]";

pub const SWAP_NAME: &'static str = "div.fs-6";

pub const SWAP_PRICE: &'static str = "div.col-auto";

/// What the ids of offers start with.
pub const SWAP_ID_PREFIX: &'static str = "voucher_swap_";

/// Whether `css` is one of the selectors above.
pub open spec fn is_page_selector(css: Seq<char>) -> bool {
    ||| css == CARD@
    ||| css == CARD_HEADER@
    ||| css == TICKET_FRAME@
    ||| css == DANGER@
    ||| css == SWAP_ITEM@
    ||| css == SWAP_NAME@
    ||| css == SWAP_PRICE@
}

/// Whether the selector `css`, one of the above, picks `node`.
pub open spec fn picks(css: Seq<char>, node: Tree) -> bool {
    &&& node is Element
    &&& css == CARD@ ==> is_called(node, "div"@) && has_class(node, "card"@)
    &&& css == CARD_HEADER@ ==> has_class(node, "card-header"@)
    &&& css == TICKET_FRAME@ ==> is_called(node, "turbo-frame"@) && id_of(node) == Some(
        "ticket_detail"@,
    )
    &&& css == DANGER@ ==> is_called(node, "div"@) && has_class(node, "alert-danger"@)
    &&& css == SWAP_ITEM@ ==> is_called(node, "li"@) && (id_of(node) matches Some(id)
        && text::begins_with(id, SWAP_ID_PREFIX@))
    &&& css == SWAP_NAME@ ==> is_called(node, "div"@) && has_class(node, "fs-6"@)
    &&& css == SWAP_PRICE@ ==> is_called(node, "div"@) && has_class(node, "col-auto"@)
}

/// The nodes that `css` picks, in the order given.
pub open spec fn picked(css: Seq<char>, nodes: Seq<Tree>) -> Seq<Tree> {
    nodes.filter(|node: Tree| picks(css, node))
}

// ---------------------------------------------------------------------------
// The HTML parser
// ---------------------------------------------------------------------------

/// A parsed document of `scraper`.
#[verifier::external_type_specification]
#[verifier::external_body]
pub struct ExHtml(Html);

/// An element of a parsed document of `scraper`.
#[verifier::external_type_specification]
#[verifier::external_body]
pub struct ExElementRef<'a>(ElementRef<'a>);

/// The elements that a document holds, in the order in which `Html::select`
/// visits them.
pub uninterp spec fn elements(doc: Html) -> Seq<Tree>;

/// What an element holds.
pub uninterp spec fn tree(el: ElementRef<'_>) -> Tree;

/// The elements of the document that an HTML text is parsed to.
pub uninterp spec fn parsed(html: Seq<char>) -> Seq<Tree>;

/// The longest text, in bytes, that is parsed as a page.
pub const MAX_DOCUMENT_BYTES: usize = 0x2000_0000;

/// `scraper::Html::parse_document`. The document depends on the text alone.
///
/// The parser keeps strings in buffers that can grow to 2 GiB and panics beyond
/// that. A replaced character may take up three times the room that it took in
/// the text, so longer texts are left out.
#[verifier::external_body]
fn parse_document(html: &str) -> (doc: Html)
    requires
        text::byte_len(html@) <= MAX_DOCUMENT_BYTES,
    ensures
        elements(doc) == parsed(html@),
{
    Html::parse_document(html)
}

/// `scraper::Html::select`, on the selector that `scraper::Selector::parse`
/// makes of `css`: the elements of the document that the selector picks.
///
/// Only the selectors that the page is read with are admitted: they are known
/// to parse, and `picks` says what they pick.
#[verifier::external_body]
fn select_in_page<'a>(doc: &'a Html, css: &str) -> (found: Vec<ElementRef<'a>>)
    requires
        is_page_selector(css@),
    ensures
        found@.map_values(|el: ElementRef<'a>| tree(el)) == picked(css@, elements(*doc)),
{
    let selector = Selector::parse(css).unwrap();
    doc.select(&selector).collect()
}

/// `scraper::ElementRef::select`, on the selector that
/// `scraper::Selector::parse` makes of `css`: the elements below `el` that the
/// selector picks, in document order. `el` itself is not among them.
///
/// The selectors admitted are those of `select_in_page`.
#[verifier::external_body]
fn select_below<'a>(el: &ElementRef<'a>, css: &str) -> (found: Vec<ElementRef<'a>>)
    requires
        is_page_selector(css@),
    ensures
        found@.map_values(|below: ElementRef<'a>| tree(below)) == picked(
            css@,
            in_order(children(tree(*el))),
        ),
{
    let selector = Selector::parse(css).unwrap();
    el.select(&selector).collect()
}

/// `scraper::ElementRef::text`, collected: all text in the element, in document
/// order.
#[verifier::external_body]
fn element_text(el: &ElementRef<'_>) -> (r: String)
    ensures
        r@ == text_of(tree(*el)),
{
    el.text().collect::<String>()
}

/// `scraper::node::Element::id`: the value of the element's `id` attribute.
#[verifier::external_body]
fn element_id(el: &ElementRef<'_>) -> (r: Option<String>)
    ensures
        r is Some <==> id_of(tree(*el)) is Some,
        r matches Some(id) ==> Some(id@) == id_of(tree(*el)),
{
    el.value().id().map(String::from)
}

// ---------------------------------------------------------------------------
// The parts that the detector reads
// ---------------------------------------------------------------------------

/// One offer on the page: its id, and the texts of its name and price cells.
#[derive(Debug)]
pub struct ItemMarkup {
    pub id: Option<String>,
    pub names: Vec<String>,
    pub cells: Vec<String>,
}

/// One card of the page: the texts of its headers, its whole text, its offers.
#[derive(Debug)]
pub struct CardMarkup {
    pub headers: Vec<String>,
    pub text: String,
    pub items: Vec<ItemMarkup>,
}

/// The cards of the page, and the texts of the warnings in the main product
/// frame if the page has one.
#[derive(Debug)]
pub struct PageMarkup {
    pub cards: Vec<CardMarkup>,
    pub frame: Option<Vec<String>>,
}

/// What an offer holds.
#[verifier::ext_equal]
pub struct ItemParts {
    pub id: Option<Seq<char>>,
    pub names: Seq<Seq<char>>,
    pub cells: Seq<Seq<char>>,
}

/// What a card holds.
#[verifier::ext_equal]
pub struct CardParts {
    pub headers: Seq<Seq<char>>,
    pub text: Seq<char>,
    pub items: Seq<ItemParts>,
}

/// What a page holds.
#[verifier::ext_equal]
pub struct PageParts {
    pub cards: Seq<CardParts>,
    pub frame: Option<Seq<Seq<char>>>,
}

impl View for ItemMarkup {
    type V = ItemParts;

    open spec fn view(&self) -> ItemParts {
        ItemParts {
            id: text::optional_text(self.id),
            names: text::texts(self.names@),
            cells: text::texts(self.cells@),
        }
    }
}

impl View for CardMarkup {
    type V = CardParts;

    open spec fn view(&self) -> CardParts {
        CardParts {
            headers: text::texts(self.headers@),
            text: self.text@,
            items: self.items@.map_values(|item: ItemMarkup| item@),
        }
    }
}

impl View for PageMarkup {
    type V = PageParts;

    open spec fn view(&self) -> PageParts {
        PageParts {
            cards: self.cards@.map_values(|card: CardMarkup| card@),
            frame: match self.frame {
                Some(warnings) => Some(text::texts(warnings@)),
                None => None,
            },
        }
    }
}

/// The texts of the elements below `node` that `css` picks.
pub open spec fn texts_below(node: Tree, css: Seq<char>) -> Seq<Seq<char>> {
    picked(css, in_order(children(node))).map_values(|below: Tree| text_of(below))
}

/// The parts of an offer.
pub open spec fn item_parts(node: Tree) -> ItemParts {
    ItemParts {
        id: id_of(node),
        names: texts_below(node, SWAP_NAME@),
        cells: texts_below(node, SWAP_PRICE@),
    }
}

/// The parts of a card.
pub open spec fn card_parts(node: Tree) -> CardParts {
    CardParts {
        headers: texts_below(node, CARD_HEADER@),
        text: text_of(node),
        items: picked(SWAP_ITEM@, in_order(children(node))).map_values(
            |item: Tree| item_parts(item),
        ),
    }
}

/// The parts of a page with the given elements. Where several elements could be
/// the main product frame, the first of them is.
pub open spec fn page_parts(nodes: Seq<Tree>) -> PageParts {
    let frames = picked(TICKET_FRAME@, nodes);
    PageParts {
        cards: picked(CARD@, nodes).map_values(|card: Tree| card_parts(card)),
        frame: if frames.len() > 0 {
            Some(texts_below(frames[0], DANGER@))
        } else {
            None
        },
    }
}

/// The texts of the elements below `el` that `css` picks.
fn read_texts(el: &ElementRef<'_>, css: &str) -> (r: Vec<String>)
    requires
        is_page_selector(css@),
    ensures
        text::texts(r@) == texts_below(tree(*el), css@),
{
    let found = select_below(el, css);
    let ghost trees = found@.map_values(|below: ElementRef<'_>| tree(below));
    let mut out: Vec<String> = Vec::new();
    let mut i: usize = 0;
    while i < found.len()
        invariant
            i <= found.len(),
            out.len() == i,
            trees == found@.map_values(|below: ElementRef<'_>| tree(below)),
            forall|k: int| 0 <= k < i ==> #[trigger] out@[k]@ == text_of(trees[k]),
        decreases found.len() - i,
    {
        out.push(element_text(&found[i]));
        i += 1;
    }
    assert(text::texts(out@) =~= trees.map_values(|below: Tree| text_of(below)));
    out
}

/// The parts of an offer.
fn read_item(el: &ElementRef<'_>) -> (r: ItemMarkup)
    ensures
        r@ == item_parts(tree(*el)),
{
    ItemMarkup {
        id: element_id(el),
        names: read_texts(el, SWAP_NAME),
        cells: read_texts(el, SWAP_PRICE),
    }
}

/// The parts of a card.
fn read_card(el: &ElementRef<'_>) -> (r: CardMarkup)
    ensures
        r@ == card_parts(tree(*el)),
{
    let found = select_below(el, SWAP_ITEM);
    let ghost trees = found@.map_values(|below: ElementRef<'_>| tree(below));
    let mut items: Vec<ItemMarkup> = Vec::new();
    let mut i: usize = 0;
    while i < found.len()
        invariant
            i <= found.len(),
            items.len() == i,
            trees == found@.map_values(|below: ElementRef<'_>| tree(below)),
            forall|k: int| 0 <= k < i ==> #[trigger] items@[k]@ == item_parts(trees[k]),
        decreases found.len() - i,
    {
        items.push(read_item(&found[i]));
        i += 1;
    }
    assert(items@.map_values(|item: ItemMarkup| item@) =~= trees.map_values(
        |item: Tree| item_parts(item),
    ));
    CardMarkup { headers: read_texts(el, CARD_HEADER), text: element_text(el), items }
}

/// Parse a page and take out the parts that the detector reads.
pub fn read_page(html: &str) -> (r: PageMarkup)
    requires
        text::byte_len(html@) <= MAX_DOCUMENT_BYTES,
    ensures
        r@ == page_parts(parsed(html@)),
{
    let doc = parse_document(html);
    let found = select_in_page(&doc, CARD);
    let ghost trees = found@.map_values(|el: ElementRef<'_>| tree(el));
    let mut cards: Vec<CardMarkup> = Vec::new();
    let mut i: usize = 0;
    while i < found.len()
        invariant
            i <= found.len(),
            cards.len() == i,
            trees == found@.map_values(|el: ElementRef<'_>| tree(el)),
            forall|k: int| 0 <= k < i ==> #[trigger] cards@[k]@ == card_parts(trees[k]),
        decreases found.len() - i,
    {
        cards.push(read_card(&found[i]));
        i += 1;
    }
    assert(cards@.map_values(|card: CardMarkup| card@) =~= trees.map_values(
        |card: Tree| card_parts(card),
    ));
    let frames = select_in_page(&doc, TICKET_FRAME);
    let ghost frame_trees = frames@.map_values(|el: ElementRef<'_>| tree(el));
    assert(frame_trees.len() == frames.len());
    let frame = if frames.len() > 0 {
        assert(frame_trees[0] == tree(frames@[0]));
        Some(read_texts(&frames[0], DANGER))
    } else {
        None
    };
    PageMarkup { cards, frame }
}

// ---------------------------------------------------------------------------
// What holds of every page
// ---------------------------------------------------------------------------

/// Each selector picks its own elements: by name, by class, by id, or by how the
/// id begins.
pub proof fn law_each_selector_picks_its_own(node: Tree)
    ensures
        picks("div.card"@, node) <==> is_called(node, "div"@) && has_class(node, "card"@),
        picks(".card-header"@, node) <==> has_class(node, "card-header"@),
        picks("turbo-frame#ticket_detail"@, node) <==> is_called(node, "turbo-frame"@) && id_of(node)
            == Some("ticket_detail"@),
        picks("div.alert-danger"@, node) <==> is_called(node, "div"@) && has_class(
            node,
            "alert-danger"@,
        ),
        picks("li[id^=\"voucher_swap_\"]"@, node) <==> is_called(node, "li"@) && (id_of(
            node,
        ) matches Some(id) && text::begins_with(id, "voucher_swap_"@)),
        picks("div.fs-6"@, node) <==> is_called(node, "div"@) && has_class(node, "fs-6"@),
        picks("div.col-auto"@, node) <==> is_called(node, "div"@) && has_class(node, "col-auto"@),
{
    reveal_strlit("div.card");
    reveal_strlit(".card-header");
    reveal_strlit("turbo-frame#ticket_detail");
    reveal_strlit("div.alert-danger");
    reveal_strlit("li[id^=\"voucher_swap_\"]");
    reveal_strlit("div.fs-6");
    reveal_strlit("div.col-auto");
    assert("div.card"@[4] == 'c' && "div.fs-6"@[4] == 'f');
    assert(".card-header"@[0] == '.' && "div.col-auto"@[0] == 'd');
    assert("div.card"@.len() == 8);
    assert("div.fs-6"@.len() == 8);
    assert(".card-header"@.len() == 12);
    assert("div.col-auto"@.len() == 12);
    assert("div.alert-danger"@.len() == 16);
    assert("li[id^=\"voucher_swap_\"]"@.len() == 23);
    assert("turbo-frame#ticket_detail"@.len() == 25);
}

/// A page is taken apart by these selectors and no others: its cards, and the
/// warnings in the first product frame.
pub proof fn law_a_page_is_taken_apart(nodes: Seq<Tree>, k: int)
    ensures
        ({
            let cards = nodes.filter(|n: Tree| picks("div.card"@, n));
            let frames = nodes.filter(|n: Tree| picks("turbo-frame#ticket_detail"@, n));
            let parts = page_parts(nodes);
            &&& parts.cards.len() == cards.len()
            &&& 0 <= k < cards.len() ==> parts.cards[k] == card_parts(cards[k])
            &&& parts.frame is Some <==> frames.len() > 0
            &&& frames.len() > 0 ==> parts.frame == Some(
                texts_below(frames[0], "div.alert-danger"@),
            )
        }),
{
}

/// A card is taken apart by these selectors and no others: its headers, its
/// whole text, and its offers with their ids, names and cells.
pub proof fn law_a_card_is_taken_apart(node: Tree, k: int)
    ensures
        ({
            let items = in_order(children(node)).filter(
                |n: Tree| picks("li[id^=\"voucher_swap_\"]"@, n),
            );
            let parts = card_parts(node);
            &&& parts.headers == texts_below(node, ".card-header"@)
            &&& parts.text == text_of(node)
            &&& parts.items.len() == items.len()
            &&& 0 <= k < items.len() ==> {
                &&& parts.items[k].id == id_of(items[k])
                &&& parts.items[k].names == texts_below(items[k], "div.fs-6"@)
                &&& parts.items[k].cells == texts_below(items[k], "div.col-auto"@)
            }
        }),
{
}

/// The texts below a node are those of every element below it that the selector
/// picks, in document order.
pub proof fn law_texts_below_are_complete(node: Tree, css: Seq<char>, k: int)
    ensures
        ({
            let found = in_order(children(node)).filter(|n: Tree| picks(css, n));
            &&& texts_below(node, css).len() == found.len()
            &&& 0 <= k < found.len() ==> texts_below(node, css)[k] == text_of(found[k])
        }),
{
}

/// Text is gathered in document order and none of it is lost: neighbours follow
/// each other, an element has the text of its children, and a run of text is
/// itself.
pub proof fn law_text_is_gathered_in_order(
    name: Seq<char>,
    attrs: Seq<(Seq<char>, Seq<char>)>,
    a: Seq<Tree>,
    b: Seq<Tree>,
    s: Seq<char>,
)
    ensures
        text_of(Tree::Element { name, attrs, children: a + b }) == text_of(
            Tree::Element { name, attrs, children: a },
        ) + text_of(Tree::Element { name, attrs, children: b }),
        text_of(Tree::Element { name, attrs, children: seq![Tree::Text(s)] }) == s,
        text_of(
            Tree::Element { name, attrs, children: seq![Tree::Element { name, attrs, children: a }] },
        ) == text_of(Tree::Element { name, attrs, children: a }),
        text_of(Tree::Element { name, attrs, children: seq![Tree::Other] }).len() == 0,
{
    lemma_text_of_all_adds_up(a, b);
    lemma_text_of_one(Tree::Text(s));
    lemma_text_of_one(Tree::Element { name, attrs, children: a });
    lemma_text_of_one(Tree::Other);
}

proof fn lemma_text_of_one(node: Tree)
    ensures
        text_of_all(seq![node]) == text_of(node),
{
    let one = seq![node];
    let none = one.subrange(1, 1);
    assert(none.len() == 0);
    assert(text_of_all(none) =~= Seq::empty());
    assert(text_of(node) + text_of_all(none) =~= text_of(node));
}

proof fn lemma_text_of_all_adds_up(a: Seq<Tree>, b: Seq<Tree>)
    ensures
        text_of_all(a + b) == text_of_all(a) + text_of_all(b),
    decreases a.len(),
{
    if a.len() == 0 {
        assert(a + b =~= b);
        assert(text_of_all(a) + text_of_all(b) =~= text_of_all(b));
    } else {
        let rest = a.subrange(1, a.len() as int);
        lemma_text_of_all_adds_up(rest, b);
        assert((a + b).subrange(1, (a + b).len() as int) =~= rest + b);
        assert((a + b)[0] == a[0]);
        assert(text_of_all(a + b) =~= text_of_all(a) + text_of_all(b));
    }
}

/// Elements are visited in document order and none is passed over: each node
/// comes before what is below it, and that before the node's neighbours.
pub proof fn law_elements_are_visited_in_order(node: Tree, a: Seq<Tree>, b: Seq<Tree>)
    ensures
        in_order(a + b) == in_order(a) + in_order(b),
        in_order(seq![node]) == seq![node] + in_order(children(node)),
{
    lemma_in_order_adds_up(a, b);
    let one = seq![node];
    let none = one.subrange(1, 1);
    assert(none.len() == 0);
    assert(in_order(none) =~= Seq::empty());
    assert(in_order(one) =~= in_order_from(node));
    assert(in_order(Seq::<Tree>::empty()) =~= Seq::empty());
    assert(in_order_from(node) =~= seq![node] + in_order(children(node)));
}

proof fn lemma_in_order_adds_up(a: Seq<Tree>, b: Seq<Tree>)
    ensures
        in_order(a + b) == in_order(a) + in_order(b),
    decreases a.len(),
{
    if a.len() == 0 {
        assert(a + b =~= b);
        assert(in_order(a) + in_order(b) =~= in_order(b));
    } else {
        let rest = a.subrange(1, a.len() as int);
        lemma_in_order_adds_up(rest, b);
        assert((a + b).subrange(1, (a + b).len() as int) =~= rest + b);
        assert((a + b)[0] == a[0]);
        assert(in_order(a + b) =~= in_order(a) + in_order(b));
    }
}

/// What the parts of a page say is what they hold, one for one.
pub proof fn law_parts_say_what_they_hold(
    markup: PageMarkup,
    card: CardMarkup,
    item: ItemMarkup,
    i: int,
)
    ensures
        markup@.cards.len() == markup.cards@.len(),
        0 <= i < markup.cards@.len() ==> markup@.cards[i] == markup.cards@[i]@,
        match markup.frame {
            Some(warnings) => markup@.frame matches Some(said) && said.len() == warnings@.len() && (0
                <= i < said.len() ==> said[i] == warnings@[i]@),
            None => markup@.frame is None,
        },
        card@.headers.len() == card.headers@.len(),
        0 <= i < card.headers@.len() ==> card@.headers[i] == card.headers@[i]@,
        card@.text == card.text@,
        card@.items.len() == card.items@.len(),
        0 <= i < card.items@.len() ==> card@.items[i] == card.items@[i]@,
        match item.id {
            Some(id) => item@.id == Some(id@),
            None => item@.id is None,
        },
        item@.names.len() == item.names@.len(),
        0 <= i < item.names@.len() ==> item@.names[i] == item.names@[i]@,
        item@.cells.len() == item.cells@.len(),
        0 <= i < item.cells@.len() ==> item@.cells[i] == item.cells@[i]@,
{
}

}
