//! The figures that the window shows.

use crate::json;
use crate::json::{Json, Tree};
use crate::text;
use crate::text::clone_opt;
use vstd::prelude::*;

verus! {

/// What stands above the figures where their file cannot be read as JSON.
pub const BROKEN_TITLE: &'static str = "ошибка JSON";

/// The figures, and what stands above them.
pub struct Metrics {
    pub title: Option<String>,
    pub items: Vec<Metric>,
}

/// One figure.
pub struct Metric {
    pub label: String,
    pub value: String,
}

/// The figures' file where it says what stands above them and in which order
/// they come.
pub struct StructuredDoc {
    pub title: Option<String>,
    pub metrics: Vec<RawMetric>,
}

/// One figure of such a file.
pub struct RawMetric {
    pub label: String,
    pub value: Json,
}

/// The labels and values of figures.
pub open spec fn item_views(v: Seq<Metric>) -> Seq<(Seq<char>, Seq<char>)> {
    v.map_values(|m: Metric| (m.label@, m.value@))
}

/// The title and the figures.
pub open spec fn metrics_view(m: Metrics) -> (Option<Seq<char>>, Seq<(Seq<char>, Seq<char>)>) {
    (text::opt_text(m.title), item_views(m.items@))
}

/// Figures as they are read, each the label and the value as it is shown.
pub open spec fn shown_of(raw: Seq<(Seq<char>, Tree)>) -> Seq<(Seq<char>, Seq<char>)> {
    raw.map_values(|e: (Seq<char>, Tree)| (e.0, value_text_of(e.1)))
}

/// The labels and values of a file's figures.
pub open spec fn raw_views(v: Seq<RawMetric>) -> Seq<(Seq<char>, Tree)> {
    v.map_values(|m: RawMetric| (m.label@, m.value@))
}

/// A file whose values are documents.
pub open spec fn well_formed(doc: StructuredDoc) -> bool {
    forall|i: int| 0 <= i < doc.metrics@.len() ==> json::proper((#[trigger] doc.metrics@[i]).value@)
}

/// A value as it is shown.
pub open spec fn value_text_of(t: Tree) -> Seq<char> {
    match t {
        Tree::Text(s) => s,
        Tree::Null => "—"@,
        Tree::Float(s) => s,
        _ => match json::plain_text(t) {
            Some(s) => s,
            None => json::written_of(t),
        },
    }
}

/// A value as it is shown: a text as it is, nothing as a dash, a number that is
/// not whole as it is printed, and anything else as it is written.
pub fn value_to_string(v: &Json) -> (r: String)
    requires
        json::proper(v@),
    ensures
        r@ == value_text_of(v@),
{
    match v {
        Json::Text(s) => s.clone(),
        Json::Null => "—".to_owned(),
        Json::Float(f) => f.text(),
        _ => json::write(v),
    }
}

/// The figures of a file that says what stands above them.
pub open spec fn structured_of(doc: StructuredDoc) -> (
    Option<Seq<char>>,
    Seq<(Seq<char>, Seq<char>)>,
) {
    (text::opt_text(doc.title), shown_of(raw_views(doc.metrics@)))
}

/// The figures of a file that is an object: its fields, in the order of their
/// names.
pub open spec fn flat_of(t: Tree) -> Option<(Option<Seq<char>>, Seq<(Seq<char>, Seq<char>)>)> {
    match t {
        Tree::Object(es) => Some((None, shown_of(es))),
        _ => None,
    }
}

/// The figures of a file that says what stands above them.
pub fn structured(doc: &StructuredDoc) -> (r: Metrics)
    requires
        well_formed(*doc),
    ensures
        metrics_view(r) == structured_of(*doc),
{
    let ghost all = shown_of(raw_views(doc.metrics@));
    let mut items: Vec<Metric> = Vec::new();
    let mut i: usize = 0;
    assert(item_views(items@) =~= all.take(0));
    while i < doc.metrics.len()
        invariant
            i <= doc.metrics@.len(),
            all == shown_of(raw_views(doc.metrics@)),
            well_formed(*doc),
            item_views(items@) == all.take(i as int),
        decreases doc.metrics.len() - i,
    {
        let ghost was = item_views(items@);
        let m = &doc.metrics[i];
        items.push(Metric { label: m.label.clone(), value: value_to_string(&m.value) });
        assert(raw_views(doc.metrics@)[i as int] == (m.label@, m.value@));
        assert(item_views(items@) =~= was.push(all[i as int]));
        assert(all.take(i + 1) =~= all.take(i as int).push(all[i as int]));
        i = i + 1;
    }
    assert(all.take(all.len() as int) =~= all);
    Metrics { title: clone_opt(&doc.title), items }
}

/// The figures of a file that is an object.
pub fn flat(j: &Json) -> (r: Option<Metrics>)
    requires
        json::proper(j@),
    ensures
        match r {
            Some(m) => flat_of(j@) == Some(metrics_view(m)),
            None => flat_of(j@) is None,
        },
{
    match j {
        Json::Object(es) => {
            let ghost entries = json::entries(es@);
            let ghost all = shown_of(entries);
            proof {
                json::lemma_entries(*j, *es);
            }
            assert(forall|k: int| 0 <= k < entries.len() ==> json::proper((#[trigger] entries[k]).1));
            let mut items: Vec<Metric> = Vec::new();
            let mut i: usize = 0;
            assert(item_views(items@) =~= all.take(0));
            while i < es.len()
                invariant
                    i <= es@.len(),
                    entries == json::entries(es@),
                    all == shown_of(entries),
                    forall|k: int|
                        0 <= k < entries.len() ==> json::proper((#[trigger] entries[k]).1),
                    item_views(items@) == all.take(i as int),
                decreases es.len() - i,
            {
                let ghost was = item_views(items@);
                assert(entries[i as int] == (es@[i as int].0@, es@[i as int].1@));
                items.push(Metric { label: es[i].0.clone(), value: value_to_string(&es[i].1) });
                assert(item_views(items@) =~= was.push(all[i as int]));
                assert(all.take(i + 1) =~= all.take(i as int).push(all[i as int]));
                i = i + 1;
            }
            assert(all.take(all.len() as int) =~= all);
            Some(Metrics { title: None, items })
        },
        _ => None,
    }
}

/// The figures in a file's text. `doc` is what the text says where it says what
/// stands above the figures; otherwise it has to be an object.
pub open spec fn parse_of(source: Seq<char>, doc: Option<StructuredDoc>) -> Option<
    (Option<Seq<char>>, Seq<(Seq<char>, Seq<char>)>),
> {
    match (doc, json::document_of(source)) {
        (Some(d), _) => Some(structured_of(d)),
        (None, Some(t)) => flat_of(t),
        (None, None) => None,
    }
}

/// The figures in a file's text, or nothing where it holds none.
pub fn parse(source: &str, doc: Option<&StructuredDoc>) -> (r: Option<Metrics>)
    requires
        doc matches Some(d) ==> well_formed(*d),
    ensures
        match r {
            Some(m) => parse_of(
                source@,
                match doc {
                    Some(d) => Some(*d),
                    None => None,
                },
            ) == Some(metrics_view(m)),
            None => doc is None && parse_of(source@, None) is None,
        },
{
    match doc {
        Some(d) => Some(structured(d)),
        None => match json::read(source) {
            Some(j) => flat(&j),
            None => None,
        },
    }
}

/// What the window shows.
pub open spec fn load_of(source: Option<Seq<char>>, doc: Option<StructuredDoc>) -> (
    Option<Seq<char>>,
    Seq<(Seq<char>, Seq<char>)>,
) {
    match source {
        None => (None, Seq::empty()),
        Some(s) => match parse_of(s, doc) {
            Some(m) => m,
            None => (Some(BROKEN_TITLE@), Seq::empty()),
        },
    }
}

/// Every figure of a file is shown, in its order and under its label. A file
/// that says what stands above the figures is shown so; one that is an object
/// has nothing above them; a file that is not there is not called broken.
pub proof fn every_figure_is_shown(
    s: Seq<char>,
    doc: StructuredDoc,
    es: Seq<(Seq<char>, Tree)>,
    i: int,
)
    ensures
        load_of(Some(s), Some(doc)).0 == text::opt_text(doc.title),
        load_of(Some(s), Some(doc)).1.len() == doc.metrics@.len(),
        0 <= i < doc.metrics@.len() ==> load_of(Some(s), Some(doc)).1[i].0 == doc.metrics@[i].label@
            && (doc.metrics@[i].value@ matches Tree::Text(t) ==> load_of(Some(s), Some(doc)).1[i].1
            == t),
        json::document_of(s) == Some(Tree::Object(es)) ==> load_of(Some(s), None).0 is None
            && load_of(Some(s), None).1.len() == es.len(),
        json::document_of(s) == Some(Tree::Object(es)) && 0 <= i < es.len() ==> load_of(
            Some(s),
            None,
        ).1[i].0 == es[i].0 && (es[i].1 matches Tree::Text(t) ==> load_of(Some(s), None).1[i].1
            == t),
        json::document_of(s) is None ==> load_of(Some(s), None) == (
            Some("ошибка JSON"@),
            Seq::<(Seq<char>, Seq<char>)>::empty(),
        ),
        load_of(None, None) == (None::<Seq<char>>, Seq::<(Seq<char>, Seq<char>)>::empty()),
{
}

/// What the window shows: nothing where there is no file, and that the file is
/// broken where it holds no figures.
pub fn load(source: Option<&str>, doc: Option<&StructuredDoc>) -> (r: Metrics)
    requires
        doc matches Some(d) ==> well_formed(*d),
    ensures
        metrics_view(r) == load_of(
            text::opt_str(source),
            match doc {
                Some(d) => Some(*d),
                None => None,
            },
        ),
{
    match source {
        None => {
            let r = Metrics { title: None, items: Vec::new() };
            assert(item_views(r.items@) =~= Seq::empty());
            r
        },
        Some(s) => match parse(s, doc) {
            Some(m) => m,
            None => {
                let r = Metrics { title: Some(BROKEN_TITLE.to_owned()), items: Vec::new() };
                assert(item_views(r.items@) =~= Seq::empty());
                r
            },
        },
    }
}

} // verus!
