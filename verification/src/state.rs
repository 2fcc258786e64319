//! Alerts, and which of them a change on the page calls for.

use vstd::prelude::*;

use crate::parse;
use crate::parse::{Listing, MainStock, PageObservation, ResaleState};
use crate::text;
use crate::text::push_decimal;

verus! {

broadcast use vstd::string::group_string_axioms;

// ---------------------------------------------------------------------------
// Alerts
// ---------------------------------------------------------------------------

#[derive(Debug, Clone, Copy, PartialEq, Eq, Structural)]
pub enum Severity {
    /// Wake the user: repeats until acknowledged or capped.
    Max,
    /// Worth knowing, sent once.
    Info,
}

#[derive(Debug, Clone, Copy, PartialEq, Eq, Structural)]
pub enum AlertKind {
    ResaleAvailable,
    MainOnSale,
    ResaleGone,
    MainSoldOut,
    ResaleTextChanged,
    StructureChanged,
    FetchFailing,
    Heartbeat,
    Started,
}

/// The name of a kind of alert.
pub open spec fn kind_name(kind: AlertKind) -> Seq<char> {
    match kind {
        AlertKind::ResaleAvailable => "ResaleAvailable"@,
        AlertKind::MainOnSale => "MainOnSale"@,
        AlertKind::ResaleGone => "ResaleGone"@,
        AlertKind::MainSoldOut => "MainSoldOut"@,
        AlertKind::ResaleTextChanged => "ResaleTextChanged"@,
        AlertKind::StructureChanged => "StructureChanged"@,
        AlertKind::FetchFailing => "FetchFailing"@,
        AlertKind::Heartbeat => "Heartbeat"@,
        AlertKind::Started => "Started"@,
    }
}

impl AlertKind {
    /// The name of the kind.
    pub fn name(self) -> (r: &'static str)
        ensures
            r@ == kind_name(self),
    {
        match self {
            AlertKind::ResaleAvailable => "ResaleAvailable",
            AlertKind::MainOnSale => "MainOnSale",
            AlertKind::ResaleGone => "ResaleGone",
            AlertKind::MainSoldOut => "MainSoldOut",
            AlertKind::ResaleTextChanged => "ResaleTextChanged",
            AlertKind::StructureChanged => "StructureChanged",
            AlertKind::FetchFailing => "FetchFailing",
            AlertKind::Heartbeat => "Heartbeat",
            AlertKind::Started => "Started",
        }
    }
}

#[derive(Debug, PartialEq, Eq)]
pub struct Alert {
    pub kind: AlertKind,
    pub severity: Severity,
    pub title: String,
    pub body: String,
}

/// What an alert says.
#[verifier::ext_equal]
pub struct Notice {
    pub kind: AlertKind,
    pub severity: Severity,
    pub title: Seq<char>,
    pub body: Seq<char>,
}

impl View for Alert {
    type V = Notice;

    open spec fn view(&self) -> Notice {
        Notice {
            kind: self.kind,
            severity: self.severity,
            title: self.title@,
            body: self.body@,
        }
    }
}

/// What alerts say.
pub open spec fn notices(v: Seq<Alert>) -> Seq<Notice> {
    v.map_values(|a: Alert| a@)
}

impl Alert {
    /// An alert of the given kind, severity, title and body.
    pub fn new(kind: AlertKind, severity: Severity, title: &str, body: &str) -> (r: Alert)
        ensures
            r@ == (Notice { kind, severity, title: title@, body: body@ }),
    {
        Alert { kind, severity, title: title.to_string(), body: body.to_string() }
    }
}

impl Clone for Alert {
    fn clone(&self) -> (r: Alert)
        ensures
            r@ == self@,
    {
        Alert {
            kind: self.kind,
            severity: self.severity,
            title: self.title.clone(),
            body: self.body.clone(),
        }
    }
}

// ---------------------------------------------------------------------------
// What is on offer
// ---------------------------------------------------------------------------

/// The line that an offer gets in a summary.
pub open spec fn offer_line(offer: parse::Offer) -> Seq<char> {
    "• "@ + offer.name + " — "@ + offer.price
}

/// The lines that offers get in a summary.
pub open spec fn offer_lines(offers: Seq<parse::Offer>) -> Seq<Seq<char>> {
    offers.map_values(|offer: parse::Offer| offer_line(offer))
}

/// Human summary of what is on offer: how many tickets, and a line for each.
/// Without offers it is the raw text, introduced by a sentence.
pub open spec fn summary(offers: Seq<parse::Offer>, raw_text: Seq<char>) -> Seq<char> {
    if offers.len() == 0 {
        "The Ticketbörse is no longer empty, but no offers could be parsed. Check the page yourself:\n\n"@
            + raw_text
    } else {
        text::decimal(offers.len()) + " "@ + (if offers.len() == 1 {
            "ticket"@
        } else {
            "tickets"@
        }) + " available:\n"@ + text::joined(offer_lines(offers), "\n"@)
    }
}

/// Human summary of what is on offer. Falls back to the raw card text when no
/// listings could be parsed: the alert must never be suppressed or emptied just
/// because the markup was unfamiliar.
pub fn listing_summary(listings: &[Listing], raw_text: &str) -> (r: String)
    ensures
        r@ == summary(parse::offers(listings@), raw_text@),
{
    let ghost offers = parse::offers(listings@);
    let ghost lines = offer_lines(offers);
    let mut out = String::new();
    let n = listings.len();
    if n == 0 {
        out.append(
            "The Ticketbörse is no longer empty, but no offers could be parsed. Check the page yourself:\n\n",
        );
        out.append(raw_text);
        assert(out@ =~= summary(offers, raw_text@));
        return out;
    }
    push_decimal(&mut out, n as u128);
    out.append(" ");
    out.append(
        if n == 1 {
            "ticket"
        } else {
            "tickets"
        },
    );
    out.append(" available:\n");
    let ghost head = out@;
    let mut i: usize = 0;
    assert(text::joined(lines.take(0), "\n"@) =~= Seq::empty());
    while i < n
        invariant
            i <= n == listings@.len(),
            offers == parse::offers(listings@),
            lines == offer_lines(offers),
            out@ == head + text::joined(lines.take(i as int), "\n"@),
        decreases n - i,
    {
        let listing = &listings[i];
        proof {
            assert(lines.take(i + 1) =~= lines.take(i as int).push(lines[i as int]));
            assert(lines[i as int] == offer_line(listing@));
            text::lemma_joined_push(lines.take(i as int), lines[i as int], "\n"@);
        }
        let ghost before = out@;
        if i > 0 {
            out.append("\n");
        }
        out.append("• ");
        out.append(&listing.name);
        out.append(" — ");
        out.append(&listing.price);
        assert(out@ =~= head + text::joined(lines.take(i + 1), "\n"@));
        i += 1;
    }
    assert(lines.take(n as int) =~= lines);
    assert(out@ =~= summary(offers, raw_text@));
    out
}

// ---------------------------------------------------------------------------
// Transitions
// ---------------------------------------------------------------------------

/// A body that ends with a link to the page.
pub open spec fn with_link(said: Seq<char>, url: Seq<char>) -> Seq<char> {
    said + "\n\n"@ + url
}

/// Tickets are on offer.
pub open spec fn resale_available(cur: parse::Sighting, url: Seq<char>) -> Notice {
    Notice {
        kind: AlertKind::ResaleAvailable,
        severity: Severity::Max,
        title: "🎟️ TICKETS AVAILABLE"@,
        body: with_link(summary(cur.listings, cur.resale_text), url),
    }
}

/// The main product can be bought.
pub open spec fn main_on_sale(url: Seq<char>) -> Notice {
    Notice {
        kind: AlertKind::MainOnSale,
        severity: Severity::Max,
        title: "🎟️ MAIN SHOP NO LONGER SOLD OUT"@,
        body: with_link("The 'Ausverkauft' banner is gone from the main product."@, url),
    }
}

/// The exchange is empty again.
pub open spec fn resale_gone(url: Seq<char>) -> Notice {
    Notice {
        kind: AlertKind::ResaleGone,
        severity: Severity::Info,
        title: "Resale stock gone"@,
        body: with_link("The Ticketbörse is empty again."@, url),
    }
}

/// The main product is sold out again.
pub open spec fn main_sold_out(url: Seq<char>) -> Notice {
    Notice {
        kind: AlertKind::MainSoldOut,
        severity: Severity::Info,
        title: "Main shop sold out again"@,
        body: with_link("The 'Ausverkauft' banner is back."@, url),
    }
}

/// The empty exchange is worded differently.
pub open spec fn wording_changed(before: Seq<char>, after: Seq<char>, url: Seq<char>) -> Notice {
    Notice {
        kind: AlertKind::ResaleTextChanged,
        severity: Severity::Info,
        title: "⚠️ Ticketbörse wording changed"@,
        body: with_link("Before:\n"@ + before + "\n\nAfter:\n"@ + after, url),
    }
}

/// What a change of the exchange calls for. On the first observation only stock
/// that is already there does. A change of the wording is worth knowing while
/// the exchange is empty, since a rewrite of the empty sentence would blind the
/// detector; while stock is up, offers come and go.
pub open spec fn resale_notices(
    prev: Option<parse::Sighting>,
    cur: parse::Sighting,
    url: Seq<char>,
) -> Seq<Notice> {
    match (prev, cur.resale) {
        (None, ResaleState::Available) => seq![resale_available(cur, url)],
        (None, ResaleState::Empty) => Seq::empty(),
        (Some(p), ResaleState::Available) => if p.resale == ResaleState::Empty {
            seq![resale_available(cur, url)]
        } else {
            Seq::empty()
        },
        (Some(p), ResaleState::Empty) => if p.resale == ResaleState::Available {
            seq![resale_gone(url)]
        } else if p.resale_text != cur.resale_text {
            seq![wording_changed(p.resale_text, cur.resale_text, url)]
        } else {
            Seq::empty()
        },
    }
}

/// What a change of the main product calls for. Coming back from `Unknown`
/// straight to `OnSale` counts as a drop.
pub open spec fn main_notices(
    prev: Option<parse::Sighting>,
    cur: parse::Sighting,
    url: Seq<char>,
) -> Seq<Notice> {
    match (prev, cur.main) {
        (_, MainStock::Unknown) => Seq::empty(),
        (None, MainStock::OnSale) => seq![main_on_sale(url)],
        (None, MainStock::SoldOut) => Seq::empty(),
        (Some(p), MainStock::OnSale) => if p.main != MainStock::OnSale {
            seq![main_on_sale(url)]
        } else {
            Seq::empty()
        },
        (Some(p), MainStock::SoldOut) => if p.main == MainStock::OnSale {
            seq![main_sold_out(url)]
        } else {
            Seq::empty()
        },
    }
}

/// What the step from one observation to the next calls for, in order.
pub open spec fn transition_notices(
    prev: Option<parse::Sighting>,
    cur: parse::Sighting,
    url: Seq<char>,
) -> Seq<Notice> {
    resale_notices(prev, cur, url) + main_notices(prev, cur, url)
}

/// What an optional observation says.
pub open spec fn seen(obs: Option<PageObservation>) -> Option<parse::Sighting> {
    match obs {
        Some(obs) => Some(obs@),
        None => None,
    }
}

/// What an optional reference to an observation says.
pub open spec fn seen_at(obs: Option<&PageObservation>) -> Option<parse::Sighting> {
    match obs {
        Some(obs) => Some(obs@),
        None => None,
    }
}

/// `said` followed by a link to the page.
pub fn linked(said: &str, url: &str) -> (r: String)
    ensures
        r@ == with_link(said@, url@),
{
    let mut out = said.to_string();
    out.append("\n\n");
    out.append(url);
    out
}

fn resale_change(prev: Option<&PageObservation>, cur: &PageObservation, url: &str) -> (r: Option<
    Alert,
>)
    ensures
        match r {
            Some(alert) => resale_notices(seen_at(prev), cur@, url@) == seq![alert@],
            None => resale_notices(seen_at(prev), cur@, url@) == Seq::<Notice>::empty(),
        },
{
    let was_empty = match prev {
        None => true,
        Some(p) => p.resale == ResaleState::Empty,
    };
    match cur.resale {
        ResaleState::Available => if was_empty {
            let summary = listing_summary(&cur.listings, &cur.resale_text);
            Some(
                Alert::new(
                    AlertKind::ResaleAvailable,
                    Severity::Max,
                    "🎟️ TICKETS AVAILABLE",
                    &linked(&summary, url),
                ),
            )
        } else {
            None
        },
        ResaleState::Empty => match prev {
            None => None,
            Some(p) => if !was_empty {
                Some(
                    Alert::new(
                        AlertKind::ResaleGone,
                        Severity::Info,
                        "Resale stock gone",
                        &linked("The Ticketbörse is empty again.", url),
                    ),
                )
            } else if p.resale_text != cur.resale_text {
                let mut said = "Before:\n".to_string();
                said.append(&p.resale_text);
                said.append("\n\nAfter:\n");
                said.append(&cur.resale_text);
                Some(
                    Alert::new(
                        AlertKind::ResaleTextChanged,
                        Severity::Info,
                        "⚠️ Ticketbörse wording changed",
                        &linked(&said, url),
                    ),
                )
            } else {
                None
            },
        },
    }
}

fn main_change(prev: Option<&PageObservation>, cur: &PageObservation, url: &str) -> (r: Option<
    Alert,
>)
    ensures
        match r {
            Some(alert) => main_notices(seen_at(prev), cur@, url@) == seq![alert@],
            None => main_notices(seen_at(prev), cur@, url@) == Seq::<Notice>::empty(),
        },
{
    let was_on_sale = match prev {
        None => false,
        Some(p) => p.main == MainStock::OnSale,
    };
    match cur.main {
        MainStock::OnSale => if !was_on_sale {
            Some(
                Alert::new(
                    AlertKind::MainOnSale,
                    Severity::Max,
                    "🎟️ MAIN SHOP NO LONGER SOLD OUT",
                    &linked("The 'Ausverkauft' banner is gone from the main product.", url),
                ),
            )
        } else {
            None
        },
        MainStock::SoldOut => if was_on_sale {
            Some(
                Alert::new(
                    AlertKind::MainSoldOut,
                    Severity::Info,
                    "Main shop sold out again",
                    &linked("The 'Ausverkauft' banner is back.", url),
                ),
            )
        } else {
            None
        },
        MainStock::Unknown => None,
    }
}

/// Compare the previous observation with the current one and produce alerts.
///
/// Pure: no clock, no I/O. `prev == None` means this is the first observation
/// after start-up.
pub fn transitions(prev: Option<&PageObservation>, cur: &PageObservation, url: &str) -> (r: Vec<
    Alert,
>)
    ensures
        notices(r@) == transition_notices(seen_at(prev), cur@, url@),
{
    let mut out: Vec<Alert> = Vec::new();
    if let Some(alert) = resale_change(prev, cur, url) {
        out.push(alert);
    }
    if let Some(alert) = main_change(prev, cur, url) {
        out.push(alert);
    }
    assert(notices(out@) =~= transition_notices(seen_at(prev), cur@, url@));
    out
}

// ---------------------------------------------------------------------------
// What holds of every step
// ---------------------------------------------------------------------------

/// A page that has not changed calls for nothing.
pub proof fn law_a_steady_page_is_silent(page: parse::Sighting, url: Seq<char>)
    ensures
        transition_notices(Some(page), page, url) == Seq::<Notice>::empty(),
{
}

/// The first look at a quiet page is silent.
pub proof fn law_a_quiet_start_is_silent(cur: parse::Sighting, url: Seq<char>)
    requires
        cur.resale == ResaleState::Empty,
        cur.main != MainStock::OnSale,
    ensures
        transition_notices(None, cur, url) == Seq::<Notice>::empty(),
{
}

/// Offers that come and go while stock is up call for nothing, whatever the
/// page says of them.
pub proof fn law_listing_churn_is_silent(
    prev: parse::Sighting,
    cur: parse::Sighting,
    url: Seq<char>,
)
    requires
        prev.resale == ResaleState::Available,
        cur.resale == ResaleState::Available,
        prev.main == cur.main,
    ensures
        transition_notices(Some(prev), cur, url) == Seq::<Notice>::empty(),
{
}

/// No drop is swallowed, not even by a restart: stock that was not seen on the
/// page before, or that the first look finds, raises the alert that names it.
pub proof fn law_no_drop_is_swallowed(
    prev: Option<parse::Sighting>,
    cur: parse::Sighting,
    url: Seq<char>,
)
    ensures
        cur.resale == ResaleState::Available && !(prev matches Some(p) && p.resale
            == ResaleState::Available) ==> transition_notices(prev, cur, url).contains(
            resale_available(cur, url),
        ),
        cur.main == MainStock::OnSale && !(prev matches Some(p) && p.main == MainStock::OnSale)
            ==> transition_notices(prev, cur, url).contains(main_on_sale(url)),
{
    let all = transition_notices(prev, cur, url);
    if cur.resale == ResaleState::Available && !(prev matches Some(p) && p.resale
        == ResaleState::Available) {
        assert(all[0] == resale_available(cur, url));
    }
    if cur.main == MainStock::OnSale && !(prev matches Some(p) && p.main == MainStock::OnSale) {
        assert(all[all.len() - 1] == main_on_sale(url));
    }
}

/// The user is woken only for stock that the page shows now. In particular a
/// main product whose frame is missing never wakes anyone.
pub proof fn law_only_stock_wakes_the_user(
    prev: Option<parse::Sighting>,
    cur: parse::Sighting,
    url: Seq<char>,
    i: int,
)
    requires
        0 <= i < transition_notices(prev, cur, url).len(),
        transition_notices(prev, cur, url)[i].severity == Severity::Max,
    ensures
        match transition_notices(prev, cur, url)[i].kind {
            AlertKind::ResaleAvailable => cur.resale == ResaleState::Available,
            AlertKind::MainOnSale => cur.main == MainStock::OnSale,
            _ => false,
        },
{
}

/// One step raises no kind of alert twice.
pub proof fn law_one_alert_of_a_kind(
    prev: Option<parse::Sighting>,
    cur: parse::Sighting,
    url: Seq<char>,
    i: int,
    j: int,
)
    requires
        0 <= i < j < transition_notices(prev, cur, url).len(),
    ensures
        transition_notices(prev, cur, url)[i].kind != transition_notices(prev, cur, url)[j].kind,
{
}

/// Every alert carries the link to the page, as its last line.
pub proof fn law_every_alert_carries_the_link(
    prev: Option<parse::Sighting>,
    cur: parse::Sighting,
    url: Seq<char>,
    i: int,
)
    requires
        0 <= i < transition_notices(prev, cur, url).len(),
    ensures
        exists|said: Seq<char>|
            transition_notices(prev, cur, url)[i].body == #[trigger] with_link(said, url),
{
}

/// Stock that could not be read is shown as it stands on the page.
pub proof fn law_unreadable_stock_is_shown_raw(cur: parse::Sighting, url: Seq<char>)
    requires
        cur.listings.len() == 0,
    ensures
        text::holds_text(resale_available(cur, url).body, cur.resale_text),
{
    let said = summary(cur.listings, cur.resale_text);
    let start = said.len() - cur.resale_text.len();
    let body = resale_available(cur, url).body;
    assert(body.subrange(start, start + cur.resale_text.len()) =~= cur.resale_text);
    assert(text::occurs_at(body, cur.resale_text, start));
}

// ---------------------------------------------------------------------------
// What an alert tells
// ---------------------------------------------------------------------------

proof fn lemma_offer_line(offer: parse::Offer)
    requires
        text::is_line(offer.name),
        text::is_line(offer.price),
    ensures
        text::is_line(offer_line(offer)),
{
    reveal_strlit("• ");
    reveal_strlit(" — ");
    text::lemma_lines_add_up("• "@, offer.name);
    text::lemma_lines_add_up("• "@ + offer.name, " — "@);
    text::lemma_lines_add_up("• "@ + offer.name + " — "@, offer.price);
}

/// A summary says how many tickets are on offer and then gives each of them a
/// line of its own with its name and its price, in the order of the page. There
/// is a line for every offer, and no other.
pub proof fn law_a_summary_counts_and_lists_every_offer(
    offers: Seq<parse::Offer>,
    raw_text: Seq<char>,
)
    requires
        offers.len() > 0,
        forall|i: int|
            0 <= i < offers.len() ==> text::is_line((#[trigger] offers[i]).name) && text::is_line(
                offers[i].price,
            ),
    ensures
        text::lines(summary(offers, raw_text)).len() == offers.len() + 1,
        text::lines(summary(offers, raw_text))[0] == text::decimal(offers.len()) + (if offers.len()
            == 1 {
            " ticket available:"@
        } else {
            " tickets available:"@
        }),
        forall|i: int|
            0 <= i < offers.len() ==> text::lines(summary(offers, raw_text))[i + 1] == "• "@ + (
            #[trigger] offers[i]).name + " — "@ + offers[i].price,
{
    let n = offers.len();
    let listed = offer_lines(offers);
    let header = text::decimal(n) + (if n == 1 {
        " ticket available:"@
    } else {
        " tickets available:"@
    });
    reveal_strlit(" ");
    reveal_strlit("\n");
    reveal_strlit("ticket");
    reveal_strlit("tickets");
    reveal_strlit(" available:\n");
    reveal_strlit(" ticket available:");
    reveal_strlit(" tickets available:");
    assert("\n"@ =~= seq!['\n']);
    let body = text::joined(listed, "\n"@);
    assert(" ticket available:"@.push('\n') =~= " "@ + "ticket"@ + " available:\n"@);
    assert(" tickets available:"@.push('\n') =~= " "@ + "tickets"@ + " available:\n"@);
    assert(summary(offers, raw_text) =~= header.push('\n') + body);
    text::lemma_decimal_is_a_line(n);
    text::lemma_lines_add_up(
        text::decimal(n),
        if n == 1 {
            " ticket available:"@
        } else {
            " tickets available:"@
        },
    );
    assert forall|i: int| 0 <= i < listed.len() implies text::is_line(#[trigger] listed[i]) by {
        lemma_offer_line(offers[i]);
    }
    text::lemma_lines_of_joined(listed, "\n"@);
    text::lemma_first_line(header, body);
    assert forall|i: int| 0 <= i < n implies text::lines(summary(offers, raw_text))[i + 1] == "• "@
        + (#[trigger] offers[i]).name + " — "@ + offers[i].price by {
        assert(text::lines(summary(offers, raw_text))[i + 1] == listed[i]);
    }
}

/// However long the list, a further offer counts and adds its line at the end,
/// and changes nothing about the lines before it.
pub proof fn law_each_further_offer_adds_its_line(
    offers: Seq<parse::Offer>,
    further: parse::Offer,
    raw_text: Seq<char>,
)
    requires
        offers.len() > 0,
    ensures
        exists|listed: Seq<char>|
            {
                &&& summary(offers, raw_text) == text::decimal(offers.len()) + (if offers.len()
                    == 1 {
                    " ticket available:\n"@
                } else {
                    " tickets available:\n"@
                }) + listed
                &&& summary(offers.push(further), raw_text) == #[trigger] (text::decimal(
                    offers.len() + 1,
                ) + " tickets available:\n"@ + listed) + "\n• "@ + further.name + " — "@
                    + further.price
            },
{
    let more = offers.push(further);
    let listed = text::joined(offer_lines(offers), "\n"@);
    reveal_strlit(" ");
    reveal_strlit("\n");
    reveal_strlit("• ");
    reveal_strlit("\n• ");
    reveal_strlit("ticket");
    reveal_strlit("tickets");
    reveal_strlit(" available:\n");
    reveal_strlit(" ticket available:\n");
    reveal_strlit(" tickets available:\n");
    assert(" ticket available:\n"@ =~= " "@ + "ticket"@ + " available:\n"@);
    assert(" tickets available:\n"@ =~= " "@ + "tickets"@ + " available:\n"@);
    assert("\n• "@ =~= "\n"@ + "• "@);
    assert(offer_lines(more) =~= offer_lines(offers).push(offer_line(further)));
    text::lemma_joined_push(offer_lines(offers), offer_line(further), "\n"@);
    assert(summary(offers, raw_text) =~= text::decimal(offers.len()) + (if offers.len() == 1 {
        " ticket available:\n"@
    } else {
        " tickets available:\n"@
    }) + listed);
    assert(summary(more, raw_text) =~= (text::decimal(offers.len() + 1) + " tickets available:\n"@
        + listed) + "\n• "@ + further.name + " — "@ + further.price);
}

/// Where no offer could be read, the summary ends with the page's own words,
/// all of them.
pub proof fn law_without_offers_the_page_speaks(raw_text: Seq<char>)
    ensures
        summary(Seq::empty(), raw_text)
            == "The Ticketbörse is no longer empty, but no offers could be parsed. Check the page yourself:\n\n"@
            + raw_text,
{
}

/// Whether an alert of `kind` is among the notices.
pub open spec fn mentions(all: Seq<Notice>, kind: AlertKind) -> bool {
    exists|i: int| 0 <= i < all.len() && (#[trigger] all[i]).kind == kind
}

/// Which alerts a step raises, kind by kind, and in what order.
pub proof fn law_each_change_raises_its_own_alert(
    prev: Option<parse::Sighting>,
    cur: parse::Sighting,
    url: Seq<char>,
)
    ensures
        ({
            let all = transition_notices(prev, cur, url);
            let had_stock = prev matches Some(p) && p.resale == ResaleState::Available;
            let was_on_sale = prev matches Some(p) && p.main == MainStock::OnSale;
            &&& mentions(all, AlertKind::ResaleAvailable) <==> cur.resale == ResaleState::Available
                && !had_stock
            &&& mentions(all, AlertKind::ResaleGone) <==> cur.resale == ResaleState::Empty
                && had_stock
            &&& mentions(all, AlertKind::ResaleTextChanged) <==> (prev matches Some(p) && p.resale
                == ResaleState::Empty && cur.resale == ResaleState::Empty && p.resale_text
                != cur.resale_text)
            &&& mentions(all, AlertKind::MainOnSale) <==> cur.main == MainStock::OnSale
                && !was_on_sale
            &&& mentions(all, AlertKind::MainSoldOut) <==> cur.main == MainStock::SoldOut
                && was_on_sale
            &&& all.len() <= 2
            &&& all.len() == 2 ==> (all[1].kind == AlertKind::MainOnSale || all[1].kind
                == AlertKind::MainSoldOut) && all[0].kind != AlertKind::MainOnSale && all[0].kind
                != AlertKind::MainSoldOut
        }),
{
    let all = transition_notices(prev, cur, url);
    let first = resale_notices(prev, cur, url);
    let second = main_notices(prev, cur, url);
    if first.len() > 0 {
        assert(all[0] == first[0]);
    }
    if second.len() > 0 {
        assert(all[first.len() as int] == second[0]);
    }
}

/// What each alert of a step says, and how urgently.
pub proof fn law_each_alert_reads_as_it_should(
    prev: Option<parse::Sighting>,
    cur: parse::Sighting,
    url: Seq<char>,
    i: int,
)
    requires
        0 <= i < transition_notices(prev, cur, url).len(),
    ensures
        ({
            let alert = transition_notices(prev, cur, url)[i];
            match alert.kind {
                AlertKind::ResaleAvailable => {
                    &&& alert.severity == Severity::Max
                    &&& alert.title == "🎟️ TICKETS AVAILABLE"@
                    &&& alert.body == summary(cur.listings, cur.resale_text) + "\n\n"@ + url
                },
                AlertKind::MainOnSale => {
                    &&& alert.severity == Severity::Max
                    &&& alert.title == "🎟️ MAIN SHOP NO LONGER SOLD OUT"@
                    &&& alert.body == "The 'Ausverkauft' banner is gone from the main product."@
                        + "\n\n"@ + url
                },
                AlertKind::ResaleGone => {
                    &&& alert.severity == Severity::Info
                    &&& alert.title == "Resale stock gone"@
                    &&& alert.body == "The Ticketbörse is empty again."@ + "\n\n"@ + url
                },
                AlertKind::MainSoldOut => {
                    &&& alert.severity == Severity::Info
                    &&& alert.title == "Main shop sold out again"@
                    &&& alert.body == "The 'Ausverkauft' banner is back."@ + "\n\n"@ + url
                },
                AlertKind::ResaleTextChanged => {
                    &&& alert.severity == Severity::Info
                    &&& alert.title == "⚠️ Ticketbörse wording changed"@
                    &&& prev matches Some(p) && alert.body == "Before:\n"@ + p.resale_text
                        + "\n\nAfter:\n"@ + cur.resale_text + "\n\n"@ + url
                },
                _ => false,
            }
        }),
{
}

/// What alerts say is what each of them holds, one for one.
pub proof fn law_alerts_say_what_they_hold(alerts: Seq<Alert>, i: int)
    ensures
        notices(alerts).len() == alerts.len(),
        0 <= i < alerts.len() ==> {
            &&& notices(alerts)[i].kind == alerts[i].kind
            &&& notices(alerts)[i].severity == alerts[i].severity
            &&& notices(alerts)[i].title == alerts[i].title@
            &&& notices(alerts)[i].body == alerts[i].body@
        },
{
}

}
