//! What the page says: whether the exchange is empty, what is on offer, and
//! whether the main product is sold out.

use std::collections::hash_map::DefaultHasher;
use std::hash::{Hash, Hasher};

use vstd::prelude::*;
use vstd::std_specs::hash::*;

use crate::page;
use crate::page::{read_page, CardMarkup, ItemMarkup, PageMarkup};
use crate::text;
use crate::text::{byte_size, contains, contains_char, is_whitespace, push_hexadecimal};

verus! {

broadcast use vstd::string::group_string_axioms;

pub const EMPTY_MARKER: &'static str = "Es gibt aktuell keine Tickets zum Weiterverkauf";

pub const CARD_HEADING: &'static str = "Ticketbörse";

pub const SOLD_OUT_MARKER: &'static str = "Ausverkauft";

/// Whether the exchange is in its one known-quiet state.
#[derive(Debug, Clone, Copy, PartialEq, Eq, Structural)]
pub enum ResaleState {
    Empty,
    Available,
}

/// State of the main (non-resale) product. Unlike `ResaleState` this is a
/// positive match on a specific frame, so it carries an explicit `Unknown`:
/// a renamed frame must become a structure warning, never an on-sale alert.
#[derive(Debug, Clone, Copy, PartialEq, Eq, Structural)]
pub enum MainStock {
    SoldOut,
    OnSale,
    /// The product frame was not found.
    Unknown,
}

/// One offer on the exchange. Enrichment only: never used to decide
/// `ResaleState`.
#[derive(Debug, Clone, PartialEq, Eq)]
pub struct Listing {
    pub id: String,
    pub name: String,
    pub price: String,
}

/// What one look at the page showed.
#[derive(Debug, Clone, PartialEq, Eq)]
pub struct PageObservation {
    pub resale: ResaleState,
    pub resale_text: String,
    pub listings: Vec<Listing>,
    pub main: MainStock,
}

#[derive(Debug, Clone, Copy, PartialEq, Eq, Structural)]
pub enum ParseError {
    CardNotFound,
}

/// What an offer says.
#[verifier::ext_equal]
pub struct Offer {
    pub id: Seq<char>,
    pub name: Seq<char>,
    pub price: Seq<char>,
}

/// What an observation says.
#[verifier::ext_equal]
pub struct Sighting {
    pub resale: ResaleState,
    pub resale_text: Seq<char>,
    pub listings: Seq<Offer>,
    pub main: MainStock,
}

impl View for Listing {
    type V = Offer;

    open spec fn view(&self) -> Offer {
        Offer { id: self.id@, name: self.name@, price: self.price@ }
    }
}

/// What offers say.
pub open spec fn offers(v: Seq<Listing>) -> Seq<Offer> {
    v.map_values(|l: Listing| l@)
}

impl View for PageObservation {
    type V = Sighting;

    open spec fn view(&self) -> Sighting {
        Sighting {
            resale: self.resale,
            resale_text: self.resale_text@,
            listings: offers(self.listings@),
            main: self.main,
        }
    }
}

impl ParseError {
    /// The error in words.
    pub fn message(&self) -> (r: String)
        ensures
            r@ == "Ticketbörse card not found on the page"@,
    {
        match self {
            ParseError::CardNotFound => "Ticketbörse card not found on the page".to_string(),
        }
    }
}

impl PageObservation {
    /// Whether the page showed the main product as sold out.
    pub fn main_sold_out(&self) -> (r: bool)
        ensures
            r == (self@.main == MainStock::SoldOut),
    {
        self.main == MainStock::SoldOut
    }

    /// Whether two observations say the same.
    pub fn same(&self, other: &PageObservation) -> (r: bool)
        ensures
            r == (self@ == other@),
    {
        if self.resale != other.resale || self.main != other.main || self.resale_text
            != other.resale_text || self.listings.len() != other.listings.len() {
            assert(self@.listings.len() == self.listings@.len());
            assert(other@.listings.len() == other.listings@.len());
            return false;
        }
        let mut i: usize = 0;
        while i < self.listings.len()
            invariant
                i <= self.listings@.len() == other.listings@.len(),
                forall|k: int|
                    0 <= k < i ==> (#[trigger] self.listings@[k])@ == other.listings@[k]@,
            decreases self.listings@.len() - i,
        {
            let a = &self.listings[i];
            let b = &other.listings[i];
            if a.id != b.id || a.name != b.name || a.price != b.price {
                assert(self@.listings[i as int] != other@.listings[i as int]);
                return false;
            }
            i += 1;
        }
        assert(self@.listings =~= other@.listings);
        true
    }
}

// ---------------------------------------------------------------------------
// Text
// ---------------------------------------------------------------------------

/// Collapses every run of whitespace to a single space and trims both ends.
///
/// Whitespace is the Unicode property, so the narrow no-break space that
/// separates a price from its currency sign counts.
pub fn normalize_ws(s: &str) -> (r: String)
    ensures
        r@ == text::collapsed(s@),
{
    let mut out = String::new();
    let mut any: bool = false;
    let mut in_word: bool = false;
    for c in it: s.chars()
        invariant
            it.seq() == s@,
            out@ == text::collapsed(s@.take(it.index() as int)),
            any == (text::words(s@.take(it.index() as int)).len() > 0),
            in_word == text::ends_in_word(s@.take(it.index() as int)),
    {
        let ghost before = s@.take(it.index() as int);
        let ghost after = s@.take(it.index() + 1);
        proof {
            assert(after.drop_last() =~= before);
            assert(after.last() == c);
            text::lemma_words_are_words(before);
        }
        if is_whitespace(c) {
            in_word = false;
        } else if in_word {
            proof {
                text::lemma_joined_extend(text::words(before), c, seq![' ']);
            }
            out.push(c);
        } else {
            proof {
                text::lemma_joined_push(text::words(before), seq![c], seq![' ']);
                assert((text::joined(text::words(before), seq![' ']) + seq![' '] + seq![c]) =~= text::joined(
                    text::words(before),
                    seq![' '],
                ).push(' ').push(c));
                assert(Seq::<char>::empty().push(c) =~= seq![c]);
            }
            if any {
                out.push(' ');
            }
            out.push(c);
            any = true;
            in_word = true;
        }
    }
    assert(s@.take(s@.len() as int) =~= s@);
    out
}

/// The state of a hasher that was in state `before` and was fed `s`.
pub uninterp spec fn fed(before: Seq<Seq<u8>>, s: Seq<char>) -> Seq<Seq<u8>>;

/// `std::hash::Hash::hash` for `str`. The hasher's new state depends on its old
/// state and on the text alone.
#[verifier::external_body]
fn feed(s: &str, hasher: &mut DefaultHasher)
    ensures
        final(hasher)@ == fed(old(hasher)@, s@),
{
    s.hash(hasher)
}

/// The hash of `s` under a fresh `DefaultHasher`.
pub open spec fn hash_of(s: Seq<char>) -> u64 {
    DefaultHasher::spec_finish(fed(Seq::empty(), s))
}

/// Short non-cryptographic fingerprint, for logs and status messages only.
pub fn fingerprint(s: &str) -> (r: String)
    ensures
        r@ == text::hexadecimal(hash_of(s@) as nat, 16),
{
    let mut hasher = DefaultHasher::new();
    feed(s, &mut hasher);
    let mut out = String::new();
    push_hexadecimal(&mut out, hasher.finish(), 16);
    assert(out@ =~= text::hexadecimal(hash_of(s@) as nat, 16));
    out
}

// ---------------------------------------------------------------------------
// Offers
// ---------------------------------------------------------------------------

/// The first of the cells that names a price in euros, spacing collapsed. The
/// trailing cell of an offer holds the buy button.
pub open spec fn price(cells: Seq<Seq<char>>) -> Seq<char>
    decreases cells.len(),
{
    if cells.len() == 0 {
        Seq::empty()
    } else if text::collapsed(cells[0]).contains('€') {
        text::collapsed(cells[0])
    } else {
        price(cells.skip(1))
    }
}

/// What an offer on the page says. A part that the page does not give is empty.
pub open spec fn offer(item: page::ItemParts) -> Offer {
    Offer {
        id: match item.id {
            Some(id) => id,
            None => Seq::empty(),
        },
        name: if item.names.len() > 0 {
            text::collapsed(item.names[0])
        } else {
            Seq::empty()
        },
        price: price(item.cells),
    }
}

fn read_price(cells: &Vec<String>) -> (r: String)
    ensures
        r@ == price(text::texts(cells@)),
{
    let ghost all = text::texts(cells@);
    let mut i: usize = 0;
    assert(all.skip(0) =~= all);
    while i < cells.len()
        invariant
            i <= cells@.len(),
            all == text::texts(cells@),
            price(all) == price(all.skip(i as int)),
        decreases cells@.len() - i,
    {
        let t = normalize_ws(&cells[i]);
        assert(all.skip(i as int)[0] == cells@[i as int]@);
        if contains_char(&t, '€') {
            return t;
        }
        assert(all.skip(i as int).skip(1) =~= all.skip(i + 1));
        i += 1;
    }
    String::new()
}

fn read_listing(item: &ItemMarkup) -> (r: Listing)
    ensures
        r@ == offer(item@),
{
    let id = match &item.id {
        Some(id) => id.clone(),
        None => String::new(),
    };
    let name = if item.names.len() > 0 {
        assert(item@.names[0] == item.names@[0]@);
        normalize_ws(&item.names[0])
    } else {
        String::new()
    };
    Listing { id, name, price: read_price(&item.cells) }
}

/// The offers that a card lists, in the order of the page.
pub fn parse_listings(card: &CardMarkup) -> (r: Vec<Listing>)
    ensures
        offers(r@) == card@.items.map_values(|item: page::ItemParts| offer(item)),
{
    let mut out: Vec<Listing> = Vec::new();
    let mut i: usize = 0;
    while i < card.items.len()
        invariant
            i <= card.items@.len(),
            out@.len() == i,
            forall|k: int| 0 <= k < i ==> (#[trigger] out@[k])@ == offer(card.items@[k]@),
        decreases card.items@.len() - i,
    {
        out.push(read_listing(&card.items[i]));
        i += 1;
    }
    assert(offers(out@) =~= card@.items.map_values(|item: page::ItemParts| offer(item)));
    out
}

// ---------------------------------------------------------------------------
// Classification
// ---------------------------------------------------------------------------

/// Whether one of the texts, spacing collapsed, contains `needle`.
pub open spec fn one_contains(all: Seq<Seq<char>>, needle: Seq<char>) -> bool {
    exists|i: int|
        0 <= i < all.len() && text::holds_text(text::collapsed(#[trigger] all[i]), needle)
}

/// Whether a card is headed as the exchange is.
pub open spec fn is_exchange(card: page::CardParts) -> bool {
    one_contains(card.headers, CARD_HEADING@)
}

/// Whether card `k` is the exchange: where cards nest, the innermost one, that
/// is the one with the shortest text, and the first of several such.
pub open spec fn is_chosen(cards: Seq<page::CardParts>, k: int) -> bool {
    &&& 0 <= k < cards.len()
    &&& is_exchange(cards[k])
    &&& forall|j: int|
        0 <= j < cards.len() && is_exchange(#[trigger] cards[j]) ==> {
            &&& text::byte_len(cards[k].text) <= text::byte_len(cards[j].text)
            &&& j < k ==> text::byte_len(cards[k].text) < text::byte_len(cards[j].text)
        }
}

/// The exchange among the cards of a page.
pub open spec fn exchange(cards: Seq<page::CardParts>) -> Option<page::CardParts> {
    if exists|k: int| is_chosen(cards, k) {
        Some(cards[choose|k: int| is_chosen(cards, k)])
    } else {
        None
    }
}

/// What the exchange's text says of it. Anything but the known empty sentence
/// counts as available.
pub open spec fn resale_state(card_text: Seq<char>) -> ResaleState {
    if text::holds_text(card_text, EMPTY_MARKER@) {
        ResaleState::Empty
    } else {
        ResaleState::Available
    }
}

/// What the warnings in the product frame say of the main product.
pub open spec fn main_stock(frame: Option<Seq<Seq<char>>>) -> MainStock {
    match frame {
        None => MainStock::Unknown,
        Some(warnings) => if one_contains(warnings, SOLD_OUT_MARKER@) {
            MainStock::SoldOut
        } else {
            MainStock::OnSale
        },
    }
}

/// What a page with the exchange `card` shows.
pub open spec fn sighting(card: page::CardParts, frame: Option<Seq<Seq<char>>>) -> Sighting {
    Sighting {
        resale: resale_state(text::collapsed(card.text)),
        resale_text: text::collapsed(card.text),
        listings: card.items.map_values(|item: page::ItemParts| offer(item)),
        main: main_stock(frame),
    }
}

/// What a page shows.
pub open spec fn classification(parts: page::PageParts) -> Result<Sighting, ParseError> {
    match exchange(parts.cards) {
        Some(card) => Ok(sighting(card, parts.frame)),
        None => Err(ParseError::CardNotFound),
    }
}

/// What the result of a classification says.
pub open spec fn outcome(r: Result<PageObservation, ParseError>) -> Result<Sighting, ParseError> {
    match r {
        Ok(obs) => Ok(obs@),
        Err(e) => Err(e),
    }
}

/// At most one card is chosen.
proof fn lemma_chosen_is_unique(cards: Seq<page::CardParts>, k: int)
    requires
        is_chosen(cards, k),
    ensures
        exchange(cards) == Some(cards[k]),
{
    let c = choose|c: int| is_chosen(cards, c);
    assert(is_chosen(cards, c));
    assert(is_exchange(cards[c]) && is_exchange(cards[k]));
}

/// Whether one of the strings, spacing collapsed, contains `needle`.
fn any_contains(all: &Vec<String>, needle: &str) -> (r: bool)
    ensures
        r == one_contains(text::texts(all@), needle@),
{
    let mut i: usize = 0;
    while i < all.len()
        invariant
            i <= all@.len(),
            forall|k: int|
                0 <= k < i ==> !text::holds_text(
                    text::collapsed(#[trigger] text::texts(all@)[k]),
                    needle@,
                ),
        decreases all@.len() - i,
    {
        let t = normalize_ws(&all[i]);
        assert(text::texts(all@)[i as int] == all@[i as int]@);
        if contains(&t, needle) {
            return true;
        }
        i += 1;
    }
    false
}

/// The index of the exchange among the cards.
fn find_exchange(cards: &Vec<CardMarkup>) -> (r: Option<usize>)
    ensures
        match r {
            Some(k) => is_chosen(cards@.map_values(|card: CardMarkup| card@), k as int),
            None => forall|k: int|
                0 <= k < cards@.len() ==> !is_exchange((#[trigger] cards@[k])@),
        },
{
    let ghost all = cards@.map_values(|card: CardMarkup| card@);
    let mut best: Option<(usize, u128)> = None;
    let mut i: usize = 0;
    while i < cards.len()
        invariant
            i <= cards@.len(),
            all == cards@.map_values(|card: CardMarkup| card@),
            match best {
                Some((k, size)) => {
                    &&& k < i
                    &&& size == text::byte_len(all[k as int].text)
                    &&& is_chosen(all.take(i as int), k as int)
                },
                None => forall|k: int| 0 <= k < i ==> !is_exchange(#[trigger] all[k]),
            },
        decreases cards@.len() - i,
    {
        let card = &cards[i];
        assert(all[i as int] == card@);
        let ghost before = all.take(i as int);
        let ghost after = all.take(i + 1);
        assert(forall|j: int| 0 <= j < i ==> after[j] == #[trigger] before[j]);
        assert(forall|j: int| 0 <= j < i ==> after[j] == #[trigger] all[j]);
        if any_contains(&card.headers, CARD_HEADING) {
            assert(is_exchange(after[i as int]));
            let size = byte_size(&card.text);
            let better = match best {
                Some((_, smallest)) => size < smallest,
                None => true,
            };
            if better {
                best = Some((i, size));
                assert(is_chosen(after, i as int));
            } else {
                assert(is_chosen(after, best.unwrap().0 as int));
            }
        } else {
            assert(!is_exchange(after[i as int]));
            assert(best is Some ==> is_chosen(after, best.unwrap().0 as int));
        }
        i += 1;
    }
    assert(all.take(all.len() as int) =~= all);
    match best {
        Some((k, _)) => Some(k),
        None => {
            assert forall|k: int| 0 <= k < cards@.len() implies !is_exchange(
                (#[trigger] cards@[k])@,
            ) by {
                assert(all[k] == cards@[k]@);
            }
            None
        },
    }
}

/// Classify the parts of a page.
///
/// The card is located by the text of its header, not by the kind of element.
/// The empty sentence alone decides `resale`; the listings are enrichment.
pub fn classify_markup(parts: &PageMarkup) -> (r: Result<PageObservation, ParseError>)
    ensures
        outcome(r) == classification(parts@),
{
    let ghost all = parts@.cards;
    match find_exchange(&parts.cards) {
        None => {
            assert forall|k: int| !is_chosen(all, k) by {
                if is_chosen(all, k) {
                    assert(all[k] == parts.cards@[k]@);
                }
            }
            Err(ParseError::CardNotFound)
        },
        Some(k) => {
            proof {
                lemma_chosen_is_unique(all, k as int);
                assert(all[k as int] == parts.cards@[k as int]@);
            }
            let card = &parts.cards[k];
            let resale_text = normalize_ws(&card.text);
            let resale = if contains(&resale_text, EMPTY_MARKER) {
                ResaleState::Empty
            } else {
                ResaleState::Available
            };
            let listings = parse_listings(card);
            let main = match &parts.frame {
                None => MainStock::Unknown,
                Some(warnings) => if any_contains(warnings, SOLD_OUT_MARKER) {
                    MainStock::SoldOut
                } else {
                    MainStock::OnSale
                },
            };
            Ok(PageObservation { resale, resale_text, listings, main })
        },
    }
}

/// Classify a page.
pub fn classify(html: &str) -> (r: Result<PageObservation, ParseError>)
    requires
        text::byte_len(html@) <= page::MAX_DOCUMENT_BYTES,
    ensures
        outcome(r) == classification(page::page_parts(page::parsed(html@))),
{
    let parts = read_page(html);
    classify_markup(&parts)
}

// ---------------------------------------------------------------------------
// What holds of every page
// ---------------------------------------------------------------------------

/// Where a card is headed as the exchange, one is chosen.
proof fn lemma_one_is_chosen(cards: Seq<page::CardParts>, k: int)
    requires
        0 <= k < cards.len(),
        is_exchange(cards[k]),
    ensures
        exists|c: int| is_chosen(cards, c),
    decreases cards.len(),
{
    let front = cards.drop_last();
    let last = cards.len() - 1;
    assert(forall|j: int| 0 <= j < last ==> #[trigger] cards[j] == front[j]);
    if exists|j: int| 0 <= j < last && is_exchange(#[trigger] front[j]) {
        let j = choose|j: int| 0 <= j < last && is_exchange(#[trigger] front[j]);
        lemma_one_is_chosen(front, j);
        let c = choose|c: int| is_chosen(front, c);
        if is_exchange(cards[last]) && text::byte_len(cards[last].text) < text::byte_len(
            cards[c].text,
        ) {
            assert(is_chosen(cards, last));
        } else {
            assert(is_chosen(cards, c));
        }
    } else {
        assert(k == last) by {
            if k < last {
                assert(is_exchange(front[k]));
            }
        }
        assert(is_chosen(cards, last));
    }
}

/// A page is refused if and only if no card on it is headed as the exchange: a
/// missing card never reads as quiet, and a card that is there is never missed.
pub proof fn law_only_a_missing_card_is_refused(parts: page::PageParts)
    ensures
        classification(parts) is Err <==> forall|k: int|
            0 <= k < parts.cards.len() ==> !is_exchange(#[trigger] parts.cards[k]),
{
    if exists|k: int| 0 <= k < parts.cards.len() && is_exchange(#[trigger] parts.cards[k]) {
        let k = choose|k: int|
            0 <= k < parts.cards.len() && is_exchange(#[trigger] parts.cards[k]);
        lemma_one_is_chosen(parts.cards, k);
    }
}

/// The detector fails open: the exchange counts as empty if and only if its
/// text holds the known empty sentence, and anything else is available.
pub proof fn law_anything_unfamiliar_is_available(parts: page::PageParts)
    ensures
        classification(parts) matches Ok(seen) ==> {
            &&& seen.resale == ResaleState::Empty <==> text::holds_text(
                seen.resale_text,
                EMPTY_MARKER@,
            )
            &&& seen.resale == ResaleState::Available <==> !text::holds_text(
                seen.resale_text,
                EMPTY_MARKER@,
            )
        },
{
}

/// Whether two pages differ at most in the offers that their cards list.
pub open spec fn same_but_for_offers(a: page::PageParts, b: page::PageParts) -> bool {
    &&& a.frame == b.frame
    &&& a.cards.len() == b.cards.len()
    &&& forall|k: int|
        0 <= k < a.cards.len() ==> {
            &&& (#[trigger] a.cards[k]).headers == b.cards[k].headers
            &&& a.cards[k].text == b.cards[k].text
        }
}

/// Listings never gate: whatever offers could be read from a page, its state
/// and its text come out the same.
pub proof fn law_listings_never_gate(a: page::PageParts, b: page::PageParts)
    requires
        same_but_for_offers(a, b),
    ensures
        match (classification(a), classification(b)) {
            (Ok(x), Ok(y)) => {
                &&& x.resale == y.resale
                &&& x.resale_text == y.resale_text
                &&& x.main == y.main
            },
            (Err(x), Err(y)) => x == y,
            _ => false,
        },
{
    assert forall|k: int| is_chosen(a.cards, k) == is_chosen(b.cards, k) by {
        assert(forall|j: int|
            0 <= j < a.cards.len() ==> is_exchange(#[trigger] a.cards[j]) == is_exchange(
                b.cards[j],
            ));
        if is_chosen(a.cards, k) {
            assert(is_exchange(a.cards[k]));
            assert forall|j: int| 0 <= j < b.cards.len() && is_exchange(
                #[trigger] b.cards[j],
            ) implies {
                &&& text::byte_len(b.cards[k].text) <= text::byte_len(b.cards[j].text)
                &&& j < k ==> text::byte_len(b.cards[k].text) < text::byte_len(b.cards[j].text)
            } by {
                assert(is_exchange(a.cards[j]));
            }
            assert(is_chosen(b.cards, k));
        }
        if is_chosen(b.cards, k) {
            assert(is_exchange(a.cards[k]));
            assert forall|j: int| 0 <= j < a.cards.len() && is_exchange(
                #[trigger] a.cards[j],
            ) implies {
                &&& text::byte_len(a.cards[k].text) <= text::byte_len(a.cards[j].text)
                &&& j < k ==> text::byte_len(a.cards[k].text) < text::byte_len(a.cards[j].text)
            } by {
                assert(is_exchange(b.cards[j]));
            }
            assert(is_chosen(a.cards, k));
        }
    }
    if exists|k: int| is_chosen(a.cards, k) {
        let k = choose|k: int| is_chosen(a.cards, k);
        assert(is_chosen(b.cards, k));
        lemma_chosen_is_unique(a.cards, k);
        lemma_chosen_is_unique(b.cards, k);
    }
}

/// The main product is unknown if and only if its frame is missing: a page
/// without the frame never reads as on sale, nor as sold out.
pub proof fn law_a_missing_frame_is_unknown(parts: page::PageParts)
    ensures
        classification(parts) matches Ok(seen) ==> (seen.main == MainStock::Unknown
            <==> parts.frame is None),
{
}

/// Where cards nest, the innermost one is read: no card headed as the exchange
/// has a shorter text than the one whose text is reported.
pub proof fn law_the_innermost_card_is_read(parts: page::PageParts, j: int)
    requires
        0 <= j < parts.cards.len(),
        is_exchange(parts.cards[j]),
    ensures
        exchange(parts.cards) matches Some(card) && {
            &&& is_exchange(card)
            &&& text::byte_len(card.text) <= text::byte_len(parts.cards[j].text)
            &&& classification(parts) matches Ok(seen) && seen.resale_text == text::collapsed(
                card.text,
            )
        },
{
    lemma_one_is_chosen(parts.cards, j);
    let k = choose|k: int| is_chosen(parts.cards, k);
    lemma_chosen_is_unique(parts.cards, k);
}

/// Every offer that is reported of a page has an id of the exchange's form.
pub proof fn law_offers_are_exchange_items(html: Seq<char>, i: int)
    ensures
        classification(page::page_parts(page::parsed(html))) matches Ok(seen) ==> (0 <= i
            < seen.listings.len() ==> text::begins_with(
            seen.listings[i].id,
            page::SWAP_ID_PREFIX@,
        )),
{
    let parts = page::page_parts(page::parsed(html));
    if let Ok(seen) = classification(parts) {
        if 0 <= i < seen.listings.len() {
            let k = choose|k: int| is_chosen(parts.cards, k);
            let card = page::picked(page::CARD@, page::parsed(html))[k];
            let below = page::in_order(page::children(card));
            let items = page::picked(page::SWAP_ITEM@, below);
            assert(parts.cards[k] == page::card_parts(card));
            assert(seen.listings[i] == offer(page::item_parts(items[i])));
            let chosen = |node: page::Tree| page::picks(page::SWAP_ITEM@, node);
            below.lemma_filter_pred(chosen, i);
        }
    }
}

/// Whether a header of the card, spacing collapsed, names the exchange.
pub open spec fn bears_the_heading(card: page::CardParts) -> bool {
    exists|i: int|
        0 <= i < card.headers.len() && text::holds_text(
            text::collapsed(#[trigger] card.headers[i]),
            "Ticketbörse"@,
        )
}

/// Whether card `k` bears the heading, and takes fewer bytes than any earlier
/// card that does and no more than any later one.
pub open spec fn is_smallest_with_the_heading(cards: Seq<page::CardParts>, k: int) -> bool {
    &&& 0 <= k < cards.len()
    &&& bears_the_heading(cards[k])
    &&& forall|j: int|
        0 <= j < cards.len() && bears_the_heading(#[trigger] cards[j])
            ==> vstd::utf8::encode_utf8(cards[k].text).len() <= vstd::utf8::encode_utf8(
            cards[j].text,
        ).len()
    &&& forall|j: int|
        0 <= j < k && bears_the_heading(#[trigger] cards[j]) ==> vstd::utf8::encode_utf8(
            cards[k].text,
        ).len() < vstd::utf8::encode_utf8(cards[j].text).len()
}

proof fn lemma_the_smallest_is_chosen(cards: Seq<page::CardParts>, k: int)
    requires
        is_chosen(cards, k),
    ensures
        is_smallest_with_the_heading(cards, k),
{
    assert(bears_the_heading(cards[k]));
    assert forall|j: int| 0 <= j < cards.len() && bears_the_heading(#[trigger] cards[j]) implies {
        &&& vstd::utf8::encode_utf8(cards[k].text).len() <= vstd::utf8::encode_utf8(
            cards[j].text,
        ).len()
        &&& j < k ==> vstd::utf8::encode_utf8(cards[k].text).len() < vstd::utf8::encode_utf8(
            cards[j].text,
        ).len()
    } by {
        assert(is_exchange(cards[j]));
    }
}

/// A page is made out if and only if some card bears the heading.
pub proof fn law_a_page_is_made_out_by_its_heading(parts: page::PageParts)
    ensures
        classification(parts) is Ok <==> exists|j: int|
            0 <= j < parts.cards.len() && bears_the_heading(#[trigger] parts.cards[j]),
{
    if exists|j: int| 0 <= j < parts.cards.len() && bears_the_heading(#[trigger] parts.cards[j]) {
        let j = choose|j: int|
            0 <= j < parts.cards.len() && bears_the_heading(#[trigger] parts.cards[j]);
        assert(is_exchange(parts.cards[j]));
        lemma_one_is_chosen(parts.cards, j);
    }
    if exists|k: int| is_chosen(parts.cards, k) {
        let k = choose|k: int| is_chosen(parts.cards, k);
        assert(bears_the_heading(parts.cards[k]));
    }
}

/// What a page shows is read from the smallest card with the heading, the first
/// of them: its text, spacing collapsed, is what is reported; the empty sentence
/// in it, and nothing else, makes it empty; and its items are reported one for
/// one.
pub proof fn law_a_page_shows_what_its_exchange_holds(parts: page::PageParts, k: int)
    requires
        is_smallest_with_the_heading(parts.cards, k),
    ensures
        classification(parts) matches Ok(seen) && {
            &&& seen.resale_text == text::collapsed(parts.cards[k].text)
            &&& seen.resale == ResaleState::Empty <==> text::holds_text(
                text::collapsed(parts.cards[k].text),
                "Es gibt aktuell keine Tickets zum Weiterverkauf"@,
            )
            &&& seen.listings.len() == parts.cards[k].items.len()
            &&& forall|i: int|
                0 <= i < seen.listings.len() ==> #[trigger] seen.listings[i] == offer(
                    parts.cards[k].items[i],
                )
        },
{
    let cards = parts.cards;
    assert(is_exchange(cards[k]));
    lemma_one_is_chosen(cards, k);
    let c = choose|c: int| is_chosen(cards, c);
    lemma_the_smallest_is_chosen(cards, c);
    assert(bears_the_heading(cards[c]) && bears_the_heading(cards[k]));
    assert(c == k);
    lemma_chosen_is_unique(cards, k);
}

/// The banner decides: with the product frame on the page, the main product is
/// sold out if and only if some warning in the frame says so, and on sale if and
/// only if none does, however many other warnings there are. Without the frame
/// it is neither.
pub proof fn law_only_the_banner_means_sold_out(parts: page::PageParts)
    ensures
        classification(parts) matches Ok(seen) ==> match parts.frame {
            Some(warnings) => {
                &&& seen.main == MainStock::SoldOut <==> exists|i: int|
                    0 <= i < warnings.len() && text::holds_text(
                        text::collapsed(#[trigger] warnings[i]),
                        "Ausverkauft"@,
                    )
                &&& seen.main == MainStock::OnSale <==> forall|i: int|
                    0 <= i < warnings.len() ==> !text::holds_text(
                        text::collapsed(#[trigger] warnings[i]),
                        "Ausverkauft"@,
                    )
            },
            None => seen.main == MainStock::Unknown,
        },
{
}

/// The warnings of the frame decide the main product alone, and the cards decide
/// the exchange alone: neither has a say in the other.
pub proof fn law_exchange_and_main_product_are_told_apart(
    a: page::PageParts,
    b: page::PageParts,
)
    ensures
        a.cards == b.cards ==> match (classification(a), classification(b)) {
            (Ok(x), Ok(y)) => x.resale == y.resale && x.resale_text == y.resale_text && x.listings
                == y.listings,
            (Err(_), Err(_)) => true,
            _ => false,
        },
        a.frame == b.frame ==> (classification(a) is Ok && classification(b) is Ok
            ==> classification(a)->Ok_0.main == classification(b)->Ok_0.main),
{
}

proof fn lemma_price(cells: Seq<Seq<char>>)
    ensures
        (exists|j: int|
            {
                &&& 0 <= j < cells.len()
                &&& price(cells) == text::collapsed(#[trigger] cells[j])
                &&& text::collapsed(cells[j]).contains('€')
                &&& forall|i: int|
                    0 <= i < j ==> !text::collapsed(#[trigger] cells[i]).contains('€')
            }) || (price(cells).len() == 0 && (forall|i: int|
            0 <= i < cells.len() ==> !text::collapsed(#[trigger] cells[i]).contains('€'))),
    decreases cells.len(),
{
    if cells.len() > 0 && !text::collapsed(cells[0]).contains('€') {
        let rest = cells.skip(1);
        lemma_price(rest);
        assert(forall|i: int| 0 <= i < rest.len() ==> #[trigger] rest[i] == cells[i + 1]);
        if exists|j: int|
            {
                &&& 0 <= j < rest.len()
                &&& price(rest) == text::collapsed(#[trigger] rest[j])
                &&& text::collapsed(rest[j]).contains('€')
                &&& forall|i: int|
                    0 <= i < j ==> !text::collapsed(#[trigger] rest[i]).contains('€')
            } {
            let j = choose|j: int|
                {
                    &&& 0 <= j < rest.len()
                    &&& price(rest) == text::collapsed(#[trigger] rest[j])
                    &&& text::collapsed(rest[j]).contains('€')
                    &&& forall|i: int|
                        0 <= i < j ==> !text::collapsed(#[trigger] rest[i]).contains('€')
                };
            assert(price(cells) == text::collapsed(cells[j + 1]));
            assert forall|i: int| 0 <= i < j + 1 implies !text::collapsed(
                #[trigger] cells[i],
            ).contains('€') by {
                if i > 0 {
                    assert(rest[i - 1] == cells[i]);
                }
            }
        } else {
            assert forall|i: int| 0 <= i < cells.len() implies !text::collapsed(
                #[trigger] cells[i],
            ).contains('€') by {
                if i > 0 {
                    assert(rest[i - 1] == cells[i]);
                }
            }
        }
    } else if cells.len() > 0 {
        assert(price(cells) == text::collapsed(cells[0]));
    }
}

/// An offer has the id of its item, the first of its names, and the first of its
/// cells that names a price in euros; what the item lacks stays empty.
pub proof fn law_an_offer_has_what_its_item_has(item: page::ItemParts)
    ensures
        item.id matches Some(id) ==> offer(item).id == id,
        item.id is None ==> offer(item).id.len() == 0,
        item.names.len() > 0 ==> offer(item).name == text::collapsed(item.names[0]),
        item.names.len() == 0 ==> offer(item).name.len() == 0,
        (exists|j: int|
            {
                &&& 0 <= j < item.cells.len()
                &&& offer(item).price == text::collapsed(#[trigger] item.cells[j])
                &&& text::collapsed(item.cells[j]).contains('€')
                &&& forall|i: int|
                    0 <= i < j ==> !text::collapsed(#[trigger] item.cells[i]).contains('€')
            }) || (offer(item).price.len() == 0 && (forall|i: int|
            0 <= i < item.cells.len() ==> !text::collapsed(#[trigger] item.cells[i]).contains('€'))),
{
    lemma_price(item.cells);
}

/// A fingerprint is sixteen digits long, whatever it is of, and spells the hash:
/// hashes that differ have fingerprints that differ.
pub proof fn law_a_fingerprint_spells_the_hash(a: Seq<char>, b: Seq<char>)
    ensures
        text::hexadecimal(hash_of(a) as nat, 16).len() == 16,
        hash_of(a) != hash_of(b) ==> text::hexadecimal(hash_of(a) as nat, 16)
            != text::hexadecimal(hash_of(b) as nat, 16),
{
    text::lemma_hexadecimal_is_long(hash_of(a) as nat, 16);
    if text::hexadecimal(hash_of(a) as nat, 16) == text::hexadecimal(hash_of(b) as nat, 16) {
        assert(vstd::arithmetic::power::pow(16, 16) == 0x1_0000_0000_0000_0000) by {
            reveal_with_fuel(vstd::arithmetic::power::pow, 17);
        }
        text::lemma_hexadecimal_is_faithful(hash_of(a) as nat, hash_of(b) as nat, 16);
    }
}

/// What an observation says is what it holds, with its offers one for one; and a
/// classification says what it came to.
pub proof fn law_observations_say_what_they_hold(obs: PageObservation, e: ParseError, i: int)
    ensures
        obs@.resale == obs.resale,
        obs@.resale_text == obs.resale_text@,
        obs@.main == obs.main,
        obs@.listings.len() == obs.listings@.len(),
        0 <= i < obs.listings@.len() ==> {
            &&& obs@.listings[i].id == obs.listings@[i].id@
            &&& obs@.listings[i].name == obs.listings@[i].name@
            &&& obs@.listings[i].price == obs.listings@[i].price@
        },
        outcome(Ok(obs)) == Ok::<Sighting, ParseError>(obs@),
        outcome(Err(e)) == Err::<Sighting, ParseError>(e),
{
}

}
