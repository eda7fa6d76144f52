use vstd::prelude::*;

use crate::entry::{Metadata, Order};
use crate::reply::Reply;
use crate::text::{decimal_text, push_char, push_decimal, same_text};

verus! {

/// The keyword that a manifest must carry for its orders to be read.
pub const MAGIC_KEYWORD: &'static str = "Christmas 2024";

/// The notations a manifest can be sent in.
#[derive(Debug, Clone, Copy, PartialEq, Eq, Structural)]
pub enum ManifestFormat {
    Toml,
    Json,
    Yaml,
}

/// What a manifest's package gives for its orders: the package's own
/// keywords (`None` when absent or inherited from a workspace) and its
/// metadata, if any.
pub struct ManifestPackage {
    pub keywords: Option<Vec<String>>,
    pub metadata: Option<Metadata>,
}

/// The notation that a content type names, if it is one of the three.
pub open spec fn format_of(content_type: Seq<char>) -> Option<ManifestFormat> {
    if content_type == "application/toml"@ {
        Some(ManifestFormat::Toml)
    } else if content_type == "application/json"@ {
        Some(ManifestFormat::Json)
    } else if content_type == "application/yaml"@ {
        Some(ManifestFormat::Yaml)
    } else {
        None
    }
}

/// The keywords are present and one of them is the magic keyword.
pub open spec fn has_magic_keyword(keywords: Option<Vec<String>>) -> bool {
    match keywords {
        Some(k) => lists_magic_keyword(k@),
        None => false,
    }
}

/// One of the keywords is the magic keyword.
pub open spec fn lists_magic_keyword(keywords: Seq<String>) -> bool {
    exists|i: int| 0 <= i < keywords.len() && (#[trigger] keywords[i])@ == MAGIC_KEYWORD@
}

/// The line that reports an order with a quantity: the item, a colon, a
/// space, the quantity.
pub open spec fn order_line(o: Order) -> Seq<char> {
    o.item@ + ": "@ + decimal_text(o.quantity->0 as nat)
}

/// The lines of the orders that have a quantity, in order.
pub open spec fn order_lines(orders: Seq<Order>) -> Seq<Seq<char>>
    decreases orders.len(),
{
    if orders.len() == 0 {
        Seq::empty()
    } else {
        let prev = order_lines(orders.drop_last());
        if orders.last().quantity is Some {
            prev.push(order_line(orders.last()))
        } else {
            prev
        }
    }
}

/// Lines joined with a newline between each two.
pub open spec fn join_lines(lines: Seq<Seq<char>>) -> Seq<char>
    decreases lines.len(),
{
    if lines.len() == 0 {
        Seq::empty()
    } else if lines.len() == 1 {
        lines[0]
    } else {
        join_lines(lines.drop_last()) + seq!['\n'] + lines.last()
    }
}

/// The notation that the content type of a request names: `None` when the
/// request has none or it names another.
pub fn manifest_format(content_type: Option<&str>) -> (r: Option<ManifestFormat>)
    ensures
        match content_type {
            Some(t) => r == format_of(t@),
            None => r is None,
        },
{
    match content_type {
        Some(t) => {
            if same_text(t, "application/toml") {
                Some(ManifestFormat::Toml)
            } else if same_text(t, "application/json") {
                Some(ManifestFormat::Json)
            } else if same_text(t, "application/yaml") {
                Some(ManifestFormat::Yaml)
            } else {
                None
            }
        },
        None => None,
    }
}

/// Whether the keywords are present and hold the magic keyword.
pub fn carries_magic_keyword(keywords: &Option<Vec<String>>) -> (r: bool)
    ensures
        r == has_magic_keyword(*keywords),
{
    match keywords {
        Some(k) => {
            let mut i: usize = 0;
            while i < k.len()
                invariant
                    *keywords == Some(*k),
                    i <= k@.len(),
                    forall|j: int| 0 <= j < i ==> (#[trigger] k@[j])@ != MAGIC_KEYWORD@,
                decreases k@.len() - i,
            {
                if same_text(k[i].as_str(), MAGIC_KEYWORD) {
                    assert((k@[i as int])@ == MAGIC_KEYWORD@);
                    assert(lists_magic_keyword(k@));
                    return true;
                }
                i = i + 1;
            }
            false
        },
        None => false,
    }
}

/// The lines of the orders that have a quantity, joined with newlines, and
/// how many there are.
pub fn order_summary(orders: &Vec<Order>) -> (r: (String, usize))
    ensures
        r.0@ == join_lines(order_lines(orders@)),
        r.1 == order_lines(orders@).len(),
{
    let mut res = String::new();
    let mut count: usize = 0;
    let mut i: usize = 0;
    assert(orders@.take(0) =~= Seq::<Order>::empty());
    while i < orders.len()
        invariant
            i <= orders@.len(),
            count <= i,
            res@ == join_lines(order_lines(orders@.take(i as int))),
            count == order_lines(orders@.take(i as int)).len(),
        decreases orders@.len() - i,
    {
        let ghost prev = order_lines(orders@.take(i as int));
        assert(orders@.take(i + 1).drop_last() =~= orders@.take(i as int));
        assert(orders@.take(i + 1).last() == orders@[i as int]);
        let o = &orders[i];
        match o.quantity {
            Some(q) => {
                if count > 0 {
                    push_char(&mut res, '\n');
                }
                res.append(o.item.as_str());
                res.append(": ");
                push_decimal(&mut res, q);
                count = count + 1;
                proof {
                    let lines = prev.push(order_line(*o));
                    assert(lines.drop_last() =~= prev);
                    if prev.len() == 0 {
                        assert(res@ =~= lines[0]);
                    } else {
                        assert(res@ =~= join_lines(prev) + seq!['\n'] + lines.last());
                    }
                }
            },
            None => {},
        }
        i = i + 1;
    }
    assert(orders@.take(orders@.len() as int) =~= orders@);
    (res, count)
}

/// The answer to a manifest: `None` stands for one that did not read or has
/// no package (400); without the magic keyword it is 400 too; without
/// metadata, or without an order that has a quantity, 204; else 200 with one
/// line per such order.
pub fn manifest_reply(package: Option<ManifestPackage>) -> (r: Reply)
    ensures
        package is None ==> r.is_text(400, "Invalid manifest"@),
        package matches Some(p) ==> {
            &&& !has_magic_keyword(p.keywords) ==> r.is_text(400, "Magic keyword not provided"@)
            &&& has_magic_keyword(p.keywords) && p.metadata is None ==> r.is_bare(204)
            &&& has_magic_keyword(p.keywords) ==> (p.metadata matches Some(m) ==> {
                if order_lines(m.orders@).len() == 0 {
                    r.is_bare(204)
                } else {
                    r.is_text(200, join_lines(order_lines(m.orders@)))
                }
            })
        },
{
    let p = match package {
        Some(p) => p,
        None => return Reply::text(400, String::from_str("Invalid manifest")),
    };
    if !carries_magic_keyword(&p.keywords) {
        return Reply::text(400, String::from_str("Magic keyword not provided"));
    }
    match p.metadata {
        Some(m) => {
            let (text, count) = order_summary(&m.orders);
            if count == 0 {
                Reply::bare(204)
            } else {
                Reply::text(200, text)
            }
        },
        None => Reply::bare(204),
    }
}


/// The magic keyword counts wherever it stands among the keywords; a
/// manifest without keywords does not carry it, nor does one whose keywords
/// all differ from it.
pub proof fn lemma_magic_keyword_anywhere(keywords: Vec<String>)
    ensures
        forall|i: int|
            0 <= i < keywords@.len() && (#[trigger] keywords@[i])@ == "Christmas 2024"@
                ==> has_magic_keyword(Some(keywords)),
        (forall|i: int| 0 <= i < keywords@.len() ==> (#[trigger] keywords@[i])@ != "Christmas 2024"@)
            ==> !has_magic_keyword(Some(keywords)),
        !has_magic_keyword(None),
{
    assert(MAGIC_KEYWORD@ == "Christmas 2024"@);
}


/// The content types that pick a notation are exactly the three
/// `application/toml`, `application/json` and `application/yaml`, each for
/// its own notation.
pub proof fn lemma_formats(t: Seq<char>)
    ensures
        format_of(t) == Some(ManifestFormat::Toml) <==> t == "application/toml"@,
        format_of(t) == Some(ManifestFormat::Json) <==> t == "application/json"@,
        format_of(t) == Some(ManifestFormat::Yaml) <==> t == "application/yaml"@,
        format_of(t) is None <==> (t != "application/toml"@ && t != "application/json"@ && t
            != "application/yaml"@),
{
    reveal_strlit("application/toml");
    reveal_strlit("application/json");
    reveal_strlit("application/yaml");
    assert("application/toml"@[12] != "application/json"@[12]);
    assert("application/toml"@[12] != "application/yaml"@[12]);
    assert("application/json"@[12] != "application/yaml"@[12]);
}


/// The order lines are, in order, one line per order that has a quantity:
/// the item, a colon, a space and the quantity in decimal; orders without a
/// quantity give no line.
pub proof fn lemma_order_lines(orders: Seq<Order>)
    ensures
        order_lines(orders) == orders.filter(|o: Order| o.quantity is Some).map_values(
            |o: Order| o.item@ + ": "@ + decimal_text(o.quantity->0 as nat),
        ),
    decreases orders.len(),
{
    reveal(Seq::filter);
    let f = |o: Order| o.item@ + ": "@ + decimal_text(o.quantity->0 as nat);
    let pred = |o: Order| o.quantity is Some;
    if orders.len() == 0 {
        assert(orders.filter(pred) =~= Seq::<Order>::empty());
        assert(orders.filter(pred).map_values(f) =~= Seq::<Seq<char>>::empty());
    } else {
        lemma_order_lines(orders.drop_last());
        let sub = orders.drop_last().filter(pred);
        if orders.last().quantity is Some {
            assert(orders.filter(pred) == sub.push(orders.last()));
            assert(sub.push(orders.last()).map_values(f) =~= sub.map_values(f).push(f(orders.last())));
        } else {
            assert(orders.filter(pred) == sub);
        }
    }
}

/// Lines are joined with a newline between each two: one line is itself, and
/// one more line adds a newline and that line.
pub proof fn lemma_join_lines(lines: Seq<Seq<char>>, l: Seq<char>)
    ensures
        join_lines(seq![l]) == l,
        lines.len() >= 1 ==> join_lines(lines.push(l)) == join_lines(lines) + seq!['\n'] + l,
        join_lines(Seq::empty()) == Seq::<char>::empty(),
{
    assert(lines.push(l).drop_last() =~= lines);
}

} // verus!
