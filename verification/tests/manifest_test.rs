use shuttlings_cch24::entry::{Metadata, Order};
use shuttlings_cch24::manifest::{
    carries_magic_keyword, manifest_format, manifest_reply, order_summary, ManifestFormat,
    ManifestPackage,
};
use shuttlings_cch24::reply::ReplyBody;

fn order(item: &str, quantity: Option<u32>) -> Order {
    Order { item: item.to_string(), quantity }
}

fn keywords(k: &[&str]) -> Option<Vec<String>> {
    Some(k.iter().map(|s| s.to_string()).collect())
}

#[test]
fn content_types_pick_the_notation() {
    assert_eq!(manifest_format(Some("application/toml")), Some(ManifestFormat::Toml));
    assert_eq!(manifest_format(Some("application/json")), Some(ManifestFormat::Json));
    assert_eq!(manifest_format(Some("application/yaml")), Some(ManifestFormat::Yaml));
    assert_eq!(manifest_format(Some("text/plain")), None);
    assert_eq!(manifest_format(Some("application/toml; charset=utf-8")), None);
    assert_eq!(manifest_format(None), None);
}

#[test]
fn orders_with_quantities_become_lines() {
    // the orders as serde reads a TOML manifest with five orders:
    // a fractional quantity and a missing one both read as no quantity
    let orders = vec![
        order("Toy car", Some(2)),
        order("Lego brick", None),
        order("Doll", Some(2)),
        order("Cookie:::\n", Some(5)),
        order("Thing", None),
    ];
    let (text, count) = order_summary(&orders);
    assert_eq!(count, 3);
    assert_eq!(text, "Toy car: 2\nDoll: 2\nCookie:::\n: 5");
}

#[test]
fn valid_manifest_lists_orders() {
    let p = ManifestPackage {
        keywords: keywords(&["Christmas 2024"]),
        metadata: Some(Metadata {
            orders: vec![order("Toy car", Some(2)), order("Lego brick", Some(230))],
        }),
    };
    let r = manifest_reply(Some(p));
    assert_eq!(r.status, 200);
    assert!(matches!(&r.body, ReplyBody::Text(t) if t == "Toy car: 2\nLego brick: 230"));
}

#[test]
fn missing_package_is_invalid() {
    let r = manifest_reply(None);
    assert_eq!(r.status, 400);
    assert!(matches!(&r.body, ReplyBody::Text(t) if t == "Invalid manifest"));
}

#[test]
fn missing_keyword_is_refused() {
    for kw in [None, keywords(&[]), keywords(&["christmas 2024", "Christmas"])] {
        let p = ManifestPackage {
            keywords: kw,
            metadata: Some(Metadata { orders: vec![order("Toy car", Some(2))] }),
        };
        let r = manifest_reply(Some(p));
        assert_eq!(r.status, 400);
        assert!(matches!(&r.body, ReplyBody::Text(t) if t == "Magic keyword not provided"));
    }
    assert!(carries_magic_keyword(&keywords(&["a", "Christmas 2024"])));
    assert!(!carries_magic_keyword(&None));
}

#[test]
fn no_usable_order_gives_no_content() {
    let p = ManifestPackage { keywords: keywords(&["Christmas 2024"]), metadata: None };
    let r = manifest_reply(Some(p));
    assert_eq!(r.status, 204);
    assert!(matches!(r.body, ReplyBody::Empty));
    let p = ManifestPackage {
        keywords: keywords(&["Christmas 2024"]),
        metadata: Some(Metadata { orders: vec![order("Thing", None)] }),
    };
    assert_eq!(manifest_reply(Some(p)).status, 204);
    let p = ManifestPackage {
        keywords: keywords(&["Christmas 2024"]),
        metadata: Some(Metadata { orders: vec![] }),
    };
    assert_eq!(manifest_reply(Some(p)).status, 204);
}

#[test]
fn quantity_is_written_in_decimal() {
    let (text, count) = order_summary(&vec![order("x", Some(0)), order("y", Some(4294967295))]);
    assert_eq!(count, 2);
    assert_eq!(text, "x: 0\ny: 4294967295");
}
