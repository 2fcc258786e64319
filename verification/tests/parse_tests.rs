use std::collections::hash_map::DefaultHasher;
use std::hash::{Hash, Hasher};

use sb_watcher::page::{read_page, CardMarkup, ItemMarkup, PageMarkup};
use sb_watcher::parse::{
    classify, classify_markup, fingerprint, normalize_ws, parse_listings, Listing, MainStock,
    PageObservation, ParseError, ResaleState,
};

/// A page in the shape of the shop's: the product frame, the exchange, and a
/// section that belongs to neither.
fn page(frame: &str, exchange: &str) -> String {
    format!(
        r#"<!DOCTYPE html>
<html lang="de">
<head><title>SUMMER BREEZE 2027</title></head>
<body>
  <main class="container">
    {frame}
    {exchange}
    <div class="card mt-3">
      <div class="card-header"><h2>Information</h2></div>
      <div class="card-body">Sichere dir jetzt dein Ticket für das Festival.</div>
    </div>
  </main>
</body>
</html>"#
    )
}

fn sold_out_frame() -> &'static str {
    r#"<turbo-frame id="ticket_detail">
         <div class="alert alert-danger" role="alert"> Ausverkauft </div>
       </turbo-frame>"#
}

fn on_sale_frame() -> &'static str {
    r#"<turbo-frame id="ticket_detail">
         <div class="alert alert-info">Nur noch wenige Tickets</div>
         <button type="submit">In den Warenkorb</button>
       </turbo-frame>"#
}

fn empty_exchange() -> &'static str {
    r#"<div class="card mb-3">
         <div class="card-header"><h2 class="h5">Ticketbörse</h2></div>
         <div class="card-body">
           <div class="alert alert-info">
             Es gibt aktuell keine
             Tickets&nbsp;zum Weiterverkauf.
           </div>
         </div>
       </div>"#
}

fn offer(id: usize, name: &str, price: &str) -> String {
    format!(
        r#"<li id="voucher_swap_{id}" class="list-group-item">
             <div class="row">
               <div class="col"><div class="fs-6">{name}</div><div class="fs-6">Einlass 19:00</div></div>
               <div class="col-auto">zzgl. Versand</div>
               <div class="col-auto">{price}&#8239;€</div>
               <div class="col-auto"><button>In den Warenkorb</button></div>
             </div>
           </li>"#
    )
}

fn exchange_with(header: &str, offers: &[String]) -> String {
    format!(
        r#"<div class="card">
             <div class="card-header">{header}</div>
             <ul class="list-group">{}</ul>
           </div>"#,
        offers.join("\n")
    )
}

fn empty_page() -> String {
    page(sold_out_frame(), empty_exchange())
}

// ---------- the quiet page ----------

#[test]
fn real_live_sbtix_page_is_empty() {
    let obs = classify(&empty_page()).expect("card must be found");
    assert_eq!(obs.resale, ResaleState::Empty);
    assert!(obs.main_sold_out(), "the page shows Ausverkauft");
    assert!(obs.listings.is_empty());
}

#[test]
fn card_text_excludes_the_rest_of_the_page() {
    let obs = classify(&empty_page()).unwrap();
    assert!(obs.resale_text.starts_with("Ticketbörse"), "got: {}", obs.resale_text);
    assert!(
        !obs.resale_text.contains("Sichere dir jetzt dein Ticket"),
        "text bled outside the card into the Information section"
    );
    assert!(
        obs.resale_text.len() < 1000,
        "unexpectedly large: {}",
        obs.resale_text.len()
    );
    assert_eq!(
        obs.resale_text,
        "Ticketbörse Es gibt aktuell keine Tickets zum Weiterverkauf."
    );
}

// ---------- pages with stock ----------

#[test]
fn real_fatoni_page_reports_ten_tickets_with_prices() {
    let offers: Vec<String> =
        (0..10).map(|i| offer(4711 + i, "FATONI - Wunderbare Welt Tour", "45,20")).collect();
    // This shop renders the heading as a plain div.
    let html = page(sold_out_frame(), &exchange_with("<div>Ticketbörse</div>", &offers));
    let obs = classify(&html).unwrap();
    assert_eq!(obs.resale, ResaleState::Available);
    assert_eq!(obs.listings.len(), 10, "there are 10 offers");
    assert!(
        obs.listings[0].name.contains("FATONI"),
        "got {:?}",
        obs.listings[0].name
    );
    assert!(
        obs.listings[0].price.contains("45,20"),
        "got {:?}",
        obs.listings[0].price
    );
    assert!(obs.listings[0].id.starts_with("voucher_swap_"));
    assert_eq!(
        obs.listings[9],
        Listing {
            id: "voucher_swap_4720".into(),
            name: "FATONI - Wunderbare Welt Tour".into(),
            price: "45,20 €".into(),
        }
    );
}

#[test]
fn real_berq_page_reports_one_ticket() {
    // This shop renders the heading as <h2 class="fs-3">, the other one as a
    // plain <div>. Both must be found: this is the guard on the header text.
    let html = page(
        on_sale_frame(),
        &exchange_with(r#"<h2 class="fs-3">Ticketbörse</h2>"#, &[offer(1, "BERQ", "56,85")]),
    );
    let obs = classify(&html).unwrap();
    assert_eq!(obs.resale, ResaleState::Available);
    assert_eq!(obs.listings.len(), 1);
    assert!(
        obs.listings[0].price.contains("56,85"),
        "got {:?}",
        obs.listings[0].price
    );
}

// ---------- fail-open: the property that matters most ----------

#[test]
fn unrecognized_markup_is_available_not_quiet() {
    let blob = r#"<div class="card"><div class="card-header"><h2>Ticketbörse</h2></div>
        <table><tr><td>Festivalticket</td><td>222,00</td></tr></table></div>"#;
    let obs = classify(&page(sold_out_frame(), blob)).unwrap();
    assert_eq!(obs.resale, ResaleState::Available);
    assert!(obs.listings.is_empty(), "nothing parseable, but still an alert");
}

#[test]
fn a_removed_alert_is_available() {
    let bare = r#"<div class="card"><div class="card-header"><h2>Ticketbörse</h2></div>
        <div class="card-body"></div></div>"#;
    assert_eq!(
        classify(&page(sold_out_frame(), bare)).unwrap().resale,
        ResaleState::Available
    );
}

#[test]
fn a_missing_card_is_an_error_not_a_quiet_empty() {
    // Must never silently report "all quiet": that would blind the watcher
    // permanently after a site redesign.
    assert_eq!(classify(&page(sold_out_frame(), "")), Err(ParseError::CardNotFound));
}

#[test]
fn detects_main_product_back_on_sale() {
    assert!(!classify(&page(on_sale_frame(), empty_exchange())).unwrap().main_sold_out());
    assert_eq!(
        classify(&page(on_sale_frame(), empty_exchange())).unwrap().main,
        MainStock::OnSale
    );
}

#[test]
fn classification_is_stable_across_identical_input() {
    let html = empty_page();
    assert_eq!(classify(&html).unwrap(), classify(&html).unwrap());
}

#[test]
fn garbage_input_is_an_error() {
    assert_eq!(
        classify("<html><body>maintenance</body></html>"),
        Err(ParseError::CardNotFound)
    );
    assert_eq!(classify(""), Err(ParseError::CardNotFound));
}

#[test]
fn normalize_ws_collapses_all_whitespace_kinds() {
    assert_eq!(normalize_ws("  a \n\t b   c "), "a b c");
    assert_eq!(normalize_ws(""), "");
    // U+202F NARROW NO-BREAK SPACE separates price from currency in the real markup.
    assert_eq!(normalize_ws("45,20\u{202f}€"), "45,20 €");
}

#[test]
fn a_missing_product_frame_is_unknown_not_on_sale() {
    // A renamed frame must produce a structure warning, not an alarm at night.
    let html = r#"<html><body>
        <div class="card">
          <div class="card-header"><h2>Ticketbörse</h2></div>
          <div class="card-body">Es gibt aktuell keine Tickets zum Weiterverkauf.</div>
        </div>
    </body></html>"#;
    let obs = classify(html).unwrap();
    assert_eq!(obs.resale, ResaleState::Empty);
    assert_eq!(obs.main, MainStock::Unknown);
}

// ---------- selection ----------

#[test]
fn the_innermost_of_nested_cards_is_read() {
    let nested = format!(
        r#"<div class="card outer"><div class="card-body">Drumherum {}</div></div>"#,
        empty_exchange()
    );
    let obs = classify(&page(sold_out_frame(), &nested)).unwrap();
    assert_eq!(
        obs.resale_text,
        "Ticketbörse Es gibt aktuell keine Tickets zum Weiterverkauf."
    );
}

#[test]
fn of_cards_of_one_length_the_first_is_read() {
    let card = |s: &str| {
        format!(r#"<div class="card"><div class="card-header">Ticketbörse</div>{s}</div>"#)
    };
    let obs = classify(&format!("{}{}", card("aa"), card("bb"))).unwrap();
    assert_eq!(obs.resale_text, "Ticketbörseaa");
    // Length counts in bytes: the second card is shorter in bytes, not in chars.
    let obs = classify(&format!("{}{}", card("éé"), card("bbb"))).unwrap();
    assert_eq!(obs.resale_text, "Ticketbörsebbb");
}

#[test]
fn classes_are_names_not_substrings() {
    let html = r#"<div class="card-deck"><div class="card-header">Ticketbörse</div></div>
        <div class="Card"><div class="card-header">Ticketbörse</div></div>
        <section class="card"><div class="card-header">Ticketbörse</div></section>"#;
    assert_eq!(classify(html), Err(ParseError::CardNotFound));
    let html = "<div class=\"mt-3\tcard\n\"><p class='x card-header'>Ticketbörse</p></div>";
    assert!(classify(html).is_ok());
}

#[test]
fn only_the_first_frame_counts_and_only_its_own_warnings() {
    let two = format!("{}{}", on_sale_frame(), sold_out_frame());
    assert_eq!(classify(&page(&two, empty_exchange())).unwrap().main, MainStock::OnSale);
    let outside = format!(
        r#"<div class="alert-danger">Ausverkauft</div>{}"#,
        on_sale_frame()
    );
    assert_eq!(classify(&page(&outside, empty_exchange())).unwrap().main, MainStock::OnSale);
}

#[test]
fn offers_are_read_only_from_items_of_the_exchange() {
    let html = r#"<li id="voucher_swap_9"><div class="fs-6">outside</div></li>
        <div class="card"><div class="card-header">Ticketbörse</div>
          <ul>
            <li id="voucher_1"><div class="fs-6">no offer</div></li>
            <li id="voucher_swap_"></li>
            <li id="voucher_swap_2"><div class="col-auto">kaufen</div></li>
          </ul>
        </div>"#;
    assert_eq!(
        classify(html).unwrap().listings,
        vec![
            Listing { id: "voucher_swap_".into(), name: "".into(), price: "".into() },
            Listing { id: "voucher_swap_2".into(), name: "".into(), price: "".into() },
        ]
    );
}

#[test]
fn a_page_is_taken_apart_before_it_is_judged() {
    let html = page(sold_out_frame(), &exchange_with("Ticketbörse", &[offer(3, "N", "1")]));
    let parts = read_page(&html);
    assert_eq!(parts.cards.len(), 2);
    assert_eq!(parts.cards[0].headers, vec!["Ticketbörse".to_string()]);
    assert_eq!(parts.cards[0].items.len(), 1);
    assert_eq!(parts.cards[0].items[0].id.as_deref(), Some("voucher_swap_3"));
    assert_eq!(
        parts.cards[0].items[0].names,
        vec!["N".to_string(), "Einlass 19:00".to_string()]
    );
    assert_eq!(
        parts.cards[0].items[0].cells,
        vec![
            "zzgl. Versand".to_string(),
            "1\u{202f}€".to_string(),
            "In den Warenkorb".to_string()
        ]
    );
    assert_eq!(parts.cards[1].headers, vec!["Information".to_string()]);
    assert_eq!(parts.frame.as_ref().unwrap()[0].trim(), "Ausverkauft");
    assert_eq!(classify_markup(&parts), classify(&html));
}

fn card(headers: &[&str], text: &str, items: Vec<ItemMarkup>) -> CardMarkup {
    CardMarkup {
        headers: headers.iter().map(|h| h.to_string()).collect(),
        text: text.to_string(),
        items,
    }
}

fn item(id: Option<&str>, names: &[&str], cells: &[&str]) -> ItemMarkup {
    ItemMarkup {
        id: id.map(|s| s.to_string()),
        names: names.iter().map(|s| s.to_string()).collect(),
        cells: cells.iter().map(|s| s.to_string()).collect(),
    }
}

#[test]
fn an_offer_takes_its_first_name_and_its_first_price() {
    let c = card(
        &["Ticketbörse"],
        "",
        vec![
            item(Some("a"), &[" x  y ", "z"], &["kaufen", " 5 \u{202f}€ ", "7 €"]),
            item(None, &[], &["kaufen"]),
        ],
    );
    assert_eq!(
        parse_listings(&c),
        vec![
            Listing { id: "a".into(), name: "x y".into(), price: "5 €".into() },
            Listing { id: "".into(), name: "".into(), price: "".into() },
        ]
    );
}

#[test]
fn listings_never_gate() {
    let quiet = "Es gibt aktuell keine Tickets zum Weiterverkauf";
    for text in [quiet, "Festivalticket"] {
        let bare = PageMarkup { cards: vec![card(&["Ticketbörse"], text, vec![])], frame: None };
        let full = PageMarkup {
            cards: vec![card(&["Ticketbörse"], text, vec![item(Some("a"), &["b"], &["1 €"])])],
            frame: None,
        };
        let (bare, full) = (classify_markup(&bare).unwrap(), classify_markup(&full).unwrap());
        assert_eq!(bare.resale, full.resale);
        assert_eq!(bare.resale_text, full.resale_text);
        assert_eq!(bare.main, full.main);
        assert_eq!(bare.resale == ResaleState::Empty, text == quiet);
    }
}

#[test]
fn the_heading_is_found_across_broken_spacing() {
    let parts = PageMarkup {
        cards: vec![
            card(&["Infos", " Die \n Ticketbörse "], "stock", vec![]),
            card(&["Ticket börse"], "s", vec![]),
        ],
        frame: Some(vec!["Heute".to_string(), "Leider \t Ausverkauft!".to_string()]),
    };
    assert_eq!(
        classify_markup(&parts),
        Ok(PageObservation {
            resale: ResaleState::Available,
            resale_text: "stock".into(),
            listings: vec![],
            main: MainStock::SoldOut,
        })
    );
}

#[test]
fn the_error_is_told_in_words() {
    assert_eq!(ParseError::CardNotFound.message(), "Ticketbörse card not found on the page");
}

#[test]
fn observations_are_compared_by_everything_they_say() {
    let o = classify(&page(sold_out_frame(), &exchange_with("Ticketbörse", &[offer(3, "N", "1")])))
        .unwrap();
    assert!(o.same(&o.clone()));
    for change in 0..6 {
        let mut other = o.clone();
        match change {
            0 => other.resale = ResaleState::Empty,
            1 => other.resale_text.push('.'),
            2 => other.main = MainStock::Unknown,
            3 => other.listings[0].price.push('!'),
            4 => other.listings[0].name.push('!'),
            _ => other.listings.clear(),
        }
        assert!(!o.same(&other), "{change}");
        assert_ne!(o, other);
    }
}

#[test]
fn collapsing_twice_is_collapsing_once() {
    for s in ["", "a", " a\u{2009}b\u{3000}", "\u{200b} x", "a\u{85}\u{a0}b"] {
        let once = normalize_ws(s);
        assert_eq!(normalize_ws(&once), once);
        assert_eq!(once, s.split_whitespace().collect::<Vec<_>>().join(" "));
    }
}

#[test]
fn a_fingerprint_is_the_hash_in_hexadecimal() {
    for s in ["", "Ticketbörse", "Es gibt aktuell keine Tickets zum Weiterverkauf"] {
        let mut h = DefaultHasher::new();
        s.hash(&mut h);
        assert_eq!(fingerprint(s), format!("{:016x}", h.finish()));
        assert_eq!(fingerprint(s).len(), 16);
    }
    assert_ne!(fingerprint("a"), fingerprint("b"));
}
