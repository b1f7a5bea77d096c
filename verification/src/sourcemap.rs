//! The bidirectional source map.
//!
//! The external renderer answers a label query with a schema-ambiguous tree
//! of arrays, objects and scalars: the label may sit one level under a
//! handful of wrapper keys, and a location may expose its page and
//! coordinates directly, under a `location` key, under position synonyms,
//! or as a four-number bounding box.  The tree is modelled as a value of
//! this crate and searched depth-first by verified walkers; coordinates are
//! carried as their numeric literals, which the host parses when it needs
//! machine numbers.

use vstd::prelude::*;
use vstd::string::StrSliceExecFns;
use crate::fence::str_eq;
use crate::placeholder::{is_simple_decimal, spec_is_simple_decimal};
use crate::preprocessor::{AnchorMeta, EditorPosition};
use crate::strutil::{parse_u64, spec_parse_u64, str_starts_with};

verus! {

/// A parsed JSON value, with numbers kept as their literal text.
#[derive(Debug)]
pub enum JsonNode {
    Null,
    Bool(bool),
    /// A number, as the literal the parser rendered it to.
    Number(String),
    Str(String),
    Array(Vec<JsonNode>),
    /// An object's fields in order; keys are unique in parsed input.
    Object(Vec<(String, JsonNode)>),
}

/// Why a renderer query result could not be used.
#[derive(Debug, Clone, Copy, PartialEq, Eq, Structural)]
pub enum SourceMapError {
    /// The query output was not valid JSON.
    MalformedQuery,
}

/// A position in the rendered document: 1-based page, coordinates as the
/// numeric literals the query carried.
#[derive(Debug, Clone)]
pub struct PdfPosition {
    pub page: u64,
    pub x: String,
    pub y: String,
}

/// The mathematical form of a rendered position.
pub struct PdfPositionView {
    pub page: int,
    pub x: Seq<char>,
    pub y: Seq<char>,
}

impl View for PdfPosition {
    type V = PdfPositionView;

    open spec fn view(&self) -> PdfPositionView {
        PdfPositionView { page: self.page as int, x: self.x@, y: self.y@ }
    }
}

/// One anchor enriched with its rendered position, when one was found.
#[derive(Debug, Clone)]
pub struct AnchorEntry {
    pub id: String,
    pub editor: EditorPosition,
    pub pdf: Option<PdfPosition>,
}

/// The full source map: all anchors in document order.
#[derive(Debug, Clone)]
pub struct SourceMapPayload {
    pub anchors: Vec<AnchorEntry>,
}

impl Default for SourceMapPayload {
    /// An empty source map.
    fn default() -> (r: SourceMapPayload)
        ensures
            r.anchors@.len() == 0,
    {
        SourceMapPayload { anchors: Vec::new() }
    }
}

#[verifier::external_type_specification]
#[verifier::external_body]
pub struct ExJsonValue(serde_json::Value);

/// Relies on `serde_json::Value`: reduces a parsed value to this crate's
/// tree, one arm per variant, moving fields only; a number keeps the
/// literal `serde_json` renders it to.
#[verifier::external_body]
fn json_to_node(v: &serde_json::Value) -> JsonNode {
    match v {
        serde_json::Value::Null => JsonNode::Null,
        serde_json::Value::Bool(b) => JsonNode::Bool(*b),
        serde_json::Value::Number(n) => JsonNode::Number(n.to_string()),
        serde_json::Value::String(s) => JsonNode::Str(s.clone()),
        serde_json::Value::Array(a) => JsonNode::Array(a.iter().map(json_to_node).collect()),
        serde_json::Value::Object(m) => JsonNode::Object(
            m.iter().map(|(k, x)| (k.clone(), json_to_node(x))).collect(),
        ),
    }
}

/// What parsing renderer query bytes yields: the reduced tree, or nothing
/// when the bytes are not valid JSON; a function of the bytes alone.
pub uninterp spec fn spec_json_parse(bytes: Seq<u8>) -> Option<JsonNode>;

/// Relies on `serde_json::from_slice`: parses JSON bytes into a value.
#[verifier::external_body]
fn parse_json(bytes: &[u8]) -> (r: Option<JsonNode>)
    ensures
        r == spec_json_parse(bytes@),
{
    match serde_json::from_slice::<serde_json::Value>(bytes) {
        Ok(v) => Some(json_to_node(&v)),
        Err(_) => None,
    }
}

/// The first field of an object with the given key, if any.
pub open spec fn spec_get_field(fields: Seq<(String, JsonNode)>, key: Seq<char>) -> Option<
    JsonNode,
>
    decreases fields.len(),
{
    if fields.len() == 0 {
        None
    } else if fields[0].0@ == key {
        Some(fields[0].1)
    } else {
        spec_get_field(fields.skip(1), key)
    }
}

/// The label found under a node: a string `label` field, else the first
/// label found under one of the wrapper keys `value`, `target`, `node`,
/// `fields`, else the first label found in an array's items.
pub open spec fn spec_find_label(v: JsonNode) -> Option<Seq<char>>
    decreases v,
{
    match v {
        JsonNode::Object(fields) => match spec_get_field(fields@, "label"@) {
            Some(JsonNode::Str(s)) => Some(s@),
            _ => {
                let t1 = spec_find_label_in(fields@, "value"@);
                if t1 is Some {
                    t1
                } else {
                    let t2 = spec_find_label_in(fields@, "target"@);
                    if t2 is Some {
                        t2
                    } else {
                        let t3 = spec_find_label_in(fields@, "node"@);
                        if t3 is Some {
                            t3
                        } else {
                            spec_find_label_in(fields@, "fields"@)
                        }
                    }
                }
            },
        },
        JsonNode::Array(items) => spec_find_label_arr(items@),
        _ => None,
    }
}

/// The label found under the first field with the given key, if any.
pub open spec fn spec_find_label_in(fields: Seq<(String, JsonNode)>, key: Seq<char>) -> Option<
    Seq<char>,
>
    decreases fields,
{
    if fields.len() == 0 {
        None
    } else if fields[0].0@ == key {
        spec_find_label(fields[0].1)
    } else {
        spec_find_label_in(fields.skip(1), key)
    }
}

/// The first label found among the items.
pub open spec fn spec_find_label_arr(items: Seq<JsonNode>) -> Option<Seq<char>>
    decreases items,
{
    if items.len() == 0 {
        None
    } else {
        let h = spec_find_label(items[0]);
        if h is Some {
            h
        } else {
            spec_find_label_arr(items.skip(1))
        }
    }
}

/// The page number a node denotes: the value of an integer number or of a
/// numeric string, else page one.
pub open spec fn spec_page_of(o: Option<JsonNode>) -> int {
    match o {
        Some(JsonNode::Number(n)) => match spec_parse_u64(n@) {
            Some(v) => v,
            None => 1,
        },
        Some(JsonNode::Str(s)) => match spec_parse_u64(s@) {
            Some(v) => v,
            None => 1,
        },
        _ => 1,
    }
}

/// The coordinate literal a node denotes: a number's literal, a plainly
/// numeric string, else zero.
pub open spec fn spec_coord_of(o: Option<JsonNode>) -> Seq<char> {
    match o {
        Some(JsonNode::Number(n)) => n@,
        Some(JsonNode::Str(s)) => if spec_is_simple_decimal(s@) {
            s@
        } else {
            "0"@
        },
        _ => "0"@,
    }
}

/// The location a single node exposes, if any: a page with coordinates
/// under `position`, `point` or `pos`, or as the first two numbers of a
/// `rect` array; the page defaults to one.
pub open spec fn spec_extract_page_xy(v: JsonNode) -> Option<PdfPositionView> {
    match v {
        JsonNode::Object(fields) => {
            let page = spec_page_of(spec_get_field(fields@, "page"@));
            let p1 = spec_get_field(fields@, "position"@);
            let pos = if p1 is Some {
                p1
            } else {
                let p2 = spec_get_field(fields@, "point"@);
                if p2 is Some {
                    p2
                } else {
                    spec_get_field(fields@, "pos"@)
                }
            };
            match pos {
                Some(JsonNode::Object(pf)) => Some(
                    PdfPositionView {
                        page,
                        x: spec_coord_of(spec_get_field(pf@, "x"@)),
                        y: spec_coord_of(spec_get_field(pf@, "y"@)),
                    },
                ),
                _ => match spec_get_field(fields@, "rect"@) {
                    Some(JsonNode::Array(a)) => if a@.len() >= 2 {
                        Some(
                            PdfPositionView {
                                page,
                                x: spec_coord_of(Some(a@[0])),
                                y: spec_coord_of(Some(a@[1])),
                            },
                        )
                    } else {
                        None
                    },
                    _ => None,
                },
            }
        },
        _ => None,
    }
}

/// The first location found under a node, searching the node itself (via
/// its `location` field or its own fields), then its children depth-first.
pub open spec fn spec_find_location(v: JsonNode) -> Option<PdfPositionView>
    decreases v,
{
    match v {
        JsonNode::Object(fields) => {
            let via_loc = match spec_get_field(fields@, "location"@) {
                Some(loc) => spec_extract_page_xy(loc),
                None => None,
            };
            if via_loc is Some {
                via_loc
            } else {
                let direct = spec_extract_page_xy(JsonNode::Object(fields));
                if direct is Some {
                    direct
                } else {
                    spec_find_location_fields(fields@)
                }
            }
        },
        JsonNode::Array(items) => spec_find_location_arr(items@),
        _ => None,
    }
}

/// The first location found under any field value, in field order.
pub open spec fn spec_find_location_fields(fields: Seq<(String, JsonNode)>) -> Option<
    PdfPositionView,
>
    decreases fields,
{
    if fields.len() == 0 {
        None
    } else {
        let h = spec_find_location(fields[0].1);
        if h is Some {
            h
        } else {
            spec_find_location_fields(fields.skip(1))
        }
    }
}

/// The first location found among the items.
pub open spec fn spec_find_location_arr(items: Seq<JsonNode>) -> Option<PdfPositionView>
    decreases items,
{
    if items.len() == 0 {
        None
    } else {
        let h = spec_find_location(items[0]);
        if h is Some {
            h
        } else {
            spec_find_location_arr(items.skip(1))
        }
    }
}

fn find_field(fields: &Vec<(String, JsonNode)>, key: &str) -> (r: Option<usize>)
    ensures
        match r {
            Some(i) => i < fields@.len() && fields@[i as int].0@ == key@ && spec_get_field(
                fields@,
                key@,
            ) == Some(fields@[i as int].1),
            None => spec_get_field(fields@, key@) is None,
        },
{
    let n: usize = fields.len();
    let mut i: usize = 0;
    proof {
        assert(fields@.skip(0) =~= fields@);
    }
    while i < n
        invariant
            0 <= i <= n,
            n == fields@.len(),
            spec_get_field(fields@, key@) == spec_get_field(fields@.skip(i as int), key@),
        decreases n - i,
    {
        proof {
            assert(fields@.skip(i as int)[0] == fields@[i as int]);
            assert(fields@.skip(i as int).skip(1) =~= fields@.skip(i + 1));
        }
        if str_eq(fields[i].0.as_str(), key) {
            return Some(i);
        }
        i = i + 1;
    }
    proof {
        assert(fields@.skip(n as int) =~= Seq::<(String, JsonNode)>::empty());
    }
    None
}

/// The view of an optional string result.
pub open spec fn opt_str_view(o: Option<String>) -> Option<Seq<char>> {
    match o {
        Some(s) => Some(s@),
        None => None,
    }
}

/// Searches a query result node depth-first for the label it carries.
pub fn find_label(v: &JsonNode) -> (r: Option<String>)
    ensures
        opt_str_view(r) == spec_find_label(*v),
    decreases *v,
{
    match v {
        JsonNode::Object(fields) => {
            match find_field(fields, "label") {
                Some(i) => {
                    match &fields[i].1 {
                        JsonNode::Str(s) => {
                            return Some(s.clone());
                        },
                        _ => {},
                    }
                },
                None => {},
            }
            let keys: [&str; 4] = ["value", "target", "node", "fields"];
            let mut k: usize = 0;
            while k < 4
                invariant
                    0 <= k <= 4,
                    *v == JsonNode::Object(*fields),
                    keys@ =~= seq!["value", "target", "node", "fields"],
                    !(spec_get_field(fields@, "label"@) matches Some(JsonNode::Str(s))),
                    forall|u: int|
                        0 <= u < k ==> spec_find_label_in(fields@, #[trigger] keys@[u]@) is None,
                    spec_find_label(*v) == (if spec_find_label_in(fields@, "value"@) is Some {
                        spec_find_label_in(fields@, "value"@)
                    } else if spec_find_label_in(fields@, "target"@) is Some {
                        spec_find_label_in(fields@, "target"@)
                    } else if spec_find_label_in(fields@, "node"@) is Some {
                        spec_find_label_in(fields@, "node"@)
                    } else {
                        spec_find_label_in(fields@, "fields"@)
                    }),
                decreases 4 - k,
            {
                match find_field(fields, keys[k]) {
                    Some(i) => {
                        proof {
                            assert(*v == JsonNode::Object(*fields));
                            assert(decreases_to!(*v => (*v)->Object_0));
                            assert((*v)->Object_0 == *fields);
                            assert(decreases_to!(*fields => fields@));
                            assert(decreases_to!(fields@ => fields@[i as int]));
                            assert(decreases_to!(fields@[i as int] => fields@[i as int].1));
                        }
                        let found = find_label(&fields[i].1);
                        proof {
                            lemma_find_label_in_found(fields@, keys@[k as int]@, i as int);
                        }
                        match found {
                            Some(s) => {
                                return Some(s);
                            },
                            None => {},
                        }
                    },
                    None => {
                        proof {
                            lemma_find_label_in_absent(fields@, keys@[k as int]@);
                        }
                    },
                }
                k = k + 1;
            }
            None
        },
        JsonNode::Array(items) => {
            let n: usize = items.len();
            let mut i: usize = 0;
            proof {
                assert(items@.skip(0) =~= items@);
            }
            while i < n
                invariant
                    0 <= i <= n,
                    n == items@.len(),
                    *v == JsonNode::Array(*items),
                    spec_find_label(*v) == spec_find_label_arr(items@),
                    spec_find_label_arr(items@) == spec_find_label_arr(items@.skip(i as int)),
                decreases n - i,
            {
                proof {
                    assert(items@.skip(i as int)[0] == items@[i as int]);
                    assert(items@.skip(i as int).skip(1) =~= items@.skip(i + 1));
                    assert(*v == JsonNode::Array(*items));
                    assert(decreases_to!(*v => (*v)->Array_0));
                    assert((*v)->Array_0 == *items);
                    assert(decreases_to!(*items => items@));
                    assert(decreases_to!(items@ => items@[i as int]));
                }
                match find_label(&items[i]) {
                    Some(s) => {
                        return Some(s);
                    },
                    None => {},
                }
                i = i + 1;
            }
            proof {
                assert(items@.skip(n as int) =~= Seq::<JsonNode>::empty());
            }
            None
        },
        _ => None,
    }
}

proof fn lemma_find_label_in_found(fields: Seq<(String, JsonNode)>, key: Seq<char>, i: int)
    requires
        0 <= i < fields.len(),
        fields[i].0@ == key,
        spec_get_field(fields, key) == Some(fields[i].1),
    ensures
        spec_find_label_in(fields, key) == spec_find_label(fields[i].1),
    decreases fields.len(),
{
    if fields[0].0@ == key {
        assert(spec_get_field(fields, key) == Some(fields[0].1));
        assert(spec_find_label_in(fields, key) == spec_find_label(fields[0].1));
    } else {
        assert(i > 0);
        assert(fields.skip(1)[i - 1] == fields[i]);
        lemma_find_label_in_found(fields.skip(1), key, i - 1);
    }
}

proof fn lemma_find_label_in_absent(fields: Seq<(String, JsonNode)>, key: Seq<char>)
    requires
        spec_get_field(fields, key) is None,
    ensures
        spec_find_label_in(fields, key) is None,
    decreases fields.len(),
{
    if fields.len() > 0 {
        if fields[0].0@ == key {
        } else {
            lemma_find_label_in_absent(fields.skip(1), key);
        }
    }
}

fn page_of(o: Option<&JsonNode>) -> (r: u64)
    ensures
        r as int == spec_page_of(match o {
            Some(n) => Some(*n),
            None => None,
        }),
{
    match o {
        Some(JsonNode::Number(n)) => match parse_u64(n.as_str()) {
            Some(v) => v,
            None => 1,
        },
        Some(JsonNode::Str(s)) => match parse_u64(s.as_str()) {
            Some(v) => v,
            None => 1,
        },
        _ => 1,
    }
}

fn coord_of(o: Option<&JsonNode>) -> (r: String)
    ensures
        r@ == spec_coord_of(match o {
            Some(n) => Some(*n),
            None => None,
        }),
{
    match o {
        Some(JsonNode::Number(n)) => n.clone(),
        Some(JsonNode::Str(s)) => {
            if is_simple_decimal(s.as_str()) {
                s.clone()
            } else {
                String::from_str("0")
            }
        },
        _ => String::from_str("0"),
    }
}

/// Reads the location a single node exposes, if any.
pub fn extract_page_xy(v: &JsonNode) -> (r: Option<PdfPosition>)
    ensures
        match r {
            Some(p) => spec_extract_page_xy(*v) == Some(p@),
            None => spec_extract_page_xy(*v) is None,
        },
{
    match v {
        JsonNode::Object(fields) => {
            let page: u64 = match find_field(fields, "page") {
                Some(i) => page_of(Some(&fields[i].1)),
                None => page_of(None),
            };
            let pos_idx: Option<usize> = match find_field(fields, "position") {
                Some(i) => Some(i),
                None => match find_field(fields, "point") {
                    Some(i) => Some(i),
                    None => find_field(fields, "pos"),
                },
            };
            match pos_idx {
                Some(pi) => {
                    match &fields[pi].1 {
                        JsonNode::Object(pf) => {
                            let x: String = match find_field(pf, "x") {
                                Some(i) => coord_of(Some(&pf[i].1)),
                                None => coord_of(None),
                            };
                            let y: String = match find_field(pf, "y") {
                                Some(i) => coord_of(Some(&pf[i].1)),
                                None => coord_of(None),
                            };
                            return Some(PdfPosition { page, x, y });
                        },
                        _ => {},
                    }
                },
                None => {},
            }
            match find_field(fields, "rect") {
                Some(ri) => {
                    match &fields[ri].1 {
                        JsonNode::Array(a) => {
                            if a.len() >= 2 {
                                let x = coord_of(Some(&a[0]));
                                let y = coord_of(Some(&a[1]));
                                return Some(PdfPosition { page, x, y });
                            }
                            None
                        },
                        _ => None,
                    }
                },
                None => None,
            }
        },
        _ => None,
    }
}

/// Searches a query result node depth-first for the first location-shaped
/// value under it.
pub fn find_location(v: &JsonNode) -> (r: Option<PdfPosition>)
    ensures
        match r {
            Some(p) => spec_find_location(*v) == Some(p@),
            None => spec_find_location(*v) is None,
        },
    decreases *v,
{
    match v {
        JsonNode::Object(fields) => {
            match find_field(fields, "location") {
                Some(i) => {
                    match extract_page_xy(&fields[i].1) {
                        Some(p) => {
                            return Some(p);
                        },
                        None => {},
                    }
                },
                None => {},
            }
            match extract_page_xy(v) {
                Some(p) => {
                    return Some(p);
                },
                None => {},
            }
            let n: usize = fields.len();
            let mut i: usize = 0;
            proof {
                assert(fields@.skip(0) =~= fields@);
            }
            while i < n
                invariant
                    0 <= i <= n,
                    n == fields@.len(),
                    *v == JsonNode::Object(*fields),
                    spec_find_location(*v) == spec_find_location_fields(fields@),
                    spec_find_location_fields(fields@) == spec_find_location_fields(
                        fields@.skip(i as int),
                    ),
                decreases n - i,
            {
                proof {
                    assert(fields@.skip(i as int)[0] == fields@[i as int]);
                    assert(fields@.skip(i as int).skip(1) =~= fields@.skip(i + 1));
                    assert(*v == JsonNode::Object(*fields));
                    assert(decreases_to!(*v => (*v)->Object_0));
                    assert((*v)->Object_0 == *fields);
                    assert(decreases_to!(*fields => fields@));
                    assert(decreases_to!(fields@ => fields@[i as int]));
                    assert(decreases_to!(fields@[i as int] => fields@[i as int].1));
                }
                match find_location(&fields[i].1) {
                    Some(p) => {
                        return Some(p);
                    },
                    None => {},
                }
                i = i + 1;
            }
            proof {
                assert(fields@.skip(n as int) =~= Seq::<(String, JsonNode)>::empty());
            }
            None
        },
        JsonNode::Array(items) => {
            let n: usize = items.len();
            let mut i: usize = 0;
            proof {
                assert(items@.skip(0) =~= items@);
            }
            while i < n
                invariant
                    0 <= i <= n,
                    n == items@.len(),
                    *v == JsonNode::Array(*items),
                    spec_find_location(*v) == spec_find_location_arr(items@),
                    spec_find_location_arr(items@) == spec_find_location_arr(
                        items@.skip(i as int),
                    ),
                decreases n - i,
            {
                proof {
                    assert(items@.skip(i as int)[0] == items@[i as int]);
                    assert(items@.skip(i as int).skip(1) =~= items@.skip(i + 1));
                    assert(*v == JsonNode::Array(*items));
                    assert(decreases_to!(*v => (*v)->Array_0));
                    assert((*v)->Array_0 == *items);
                    assert(decreases_to!(*items => items@));
                    assert(decreases_to!(items@ => items@[i as int]));
                }
                match find_location(&items[i]) {
                    Some(p) => {
                        return Some(p);
                    },
                    None => {},
                }
                i = i + 1;
            }
            proof {
                assert(items@.skip(n as int) =~= Seq::<JsonNode>::empty());
            }
            None
        },
        _ => None,
    }
}

/// The view of a labelled-position list.
pub open spec fn position_views(ps: Seq<(String, PdfPosition)>) -> Seq<(Seq<char>, PdfPositionView)> {
    ps.map_values(|p: (String, PdfPosition)| (p.0@, p.1@))
}

/// The labelled positions a query result tree yields: for each top-level
/// item carrying a label with the anchor prefix and a location, one entry
/// in item order.
pub open spec fn spec_positions_of_items(items: Seq<JsonNode>) -> Seq<(Seq<char>, PdfPositionView)>
    decreases items.len(),
{
    if items.len() == 0 {
        Seq::<(Seq<char>, PdfPositionView)>::empty()
    } else {
        let head: Seq<(Seq<char>, PdfPositionView)> = match spec_find_label(items[0]) {
            Some(l) => if crate::strutil::spec_starts_with(l, "tf-"@) {
                match spec_find_location(items[0]) {
                    Some(p) => seq![(l, p)],
                    None => Seq::empty(),
                }
            } else {
                Seq::empty()
            },
            None => Seq::empty(),
        };
        head + spec_positions_of_items(items.skip(1))
    }
}

/// The labelled positions of a whole query result: those of its top-level
/// array, or none when the result is not an array.
pub open spec fn spec_positions_of(v: JsonNode) -> Seq<(Seq<char>, PdfPositionView)> {
    match v {
        JsonNode::Array(items) => spec_positions_of_items(items@),
        _ => Seq::<(Seq<char>, PdfPositionView)>::empty(),
    }
}

/// Reads a renderer label-query result and collects, per anchor label, the
/// rendered position found for it, in result order.  Fails exactly when the
/// bytes are not valid JSON; a result that is not an array yields no
/// positions, which is not an error.
pub fn pdf_positions_from_query(json_bytes: &[u8]) -> (r: Result<
    Vec<(String, PdfPosition)>,
    SourceMapError,
>)
    ensures
        r matches Ok(ps) ==> spec_json_parse(json_bytes@) matches Some(t) && position_views(ps@)
            == spec_positions_of(t),
        r.is_ok() == !(spec_json_parse(json_bytes@) is None),
{
    let parsed = parse_json(json_bytes);
    match parsed {
        Some(tree) => {
            let mut out: Vec<(String, PdfPosition)> = Vec::new();
            match &tree {
                JsonNode::Array(items) => {
                    let n: usize = items.len();
                    let mut i: usize = 0;
                    proof {
                        assert(items@.skip(0) =~= items@);
                        assert(position_views(out@) =~= Seq::<(Seq<char>, PdfPositionView)>::empty());
                    }
                    while i < n
                        invariant
                            0 <= i <= n,
                            n == items@.len(),
                            position_views(out@) + spec_positions_of_items(items@.skip(i as int))
                                == spec_positions_of_items(items@),
                        decreases n - i,
                    {
                        let ghost rem = items@.skip(i as int);
                        proof {
                            assert(rem[0] == items@[i as int]);
                            assert(rem.skip(1) =~= items@.skip(i + 1));
                        }
                        match find_label(&items[i]) {
                            Some(label) => {
                                if str_starts_with(label.as_str(), "tf-") {
                                    match find_location(&items[i]) {
                                        Some(p) => {
                                            let ghost pv = position_views(out@);
                                            out.push((label, p));
                                            proof {
                                                let entry = (
                                                    spec_find_label(items@[i as int]).unwrap(),
                                                    spec_find_location(items@[i as int]).unwrap(),
                                                );
                                                assert(position_views(out@) =~= pv.push(entry));
                                                assert(pv.push(entry) + spec_positions_of_items(
                                                    rem.skip(1),
                                                ) =~= pv + (seq![entry] + spec_positions_of_items(
                                                    rem.skip(1),
                                                )));
                                            }
                                        },
                                        None => {},
                                    }
                                }
                            },
                            None => {},
                        }
                        i = i + 1;
                    }
                    proof {
                        assert(items@.skip(n as int) =~= Seq::<JsonNode>::empty());
                        assert(position_views(out@) + Seq::<(Seq<char>, PdfPositionView)>::empty()
                            =~= position_views(out@));
                    }
                },
                _ => {},
            }
            Ok(out)
        },
        None => Err(SourceMapError::MalformedQuery),
    }
}

/// The position recorded for an identifier, if any: the first entry whose
/// label equals it.
pub open spec fn spec_lookup_position(
    ps: Seq<(Seq<char>, PdfPositionView)>,
    id: Seq<char>,
) -> Option<PdfPositionView>
    decreases ps.len(),
{
    if ps.len() == 0 {
        None
    } else if ps[0].0 == id {
        Some(ps[0].1)
    } else {
        spec_lookup_position(ps.skip(1), id)
    }
}

fn lookup_position(ps: &Vec<(String, PdfPosition)>, id: &str) -> (r: Option<PdfPosition>)
    ensures
        match r {
            Some(p) => spec_lookup_position(position_views(ps@), id@) == Some(p@),
            None => spec_lookup_position(position_views(ps@), id@) is None,
        },
{
    let n: usize = ps.len();
    let mut i: usize = 0;
    proof {
        assert(position_views(ps@).skip(0) =~= position_views(ps@));
    }
    while i < n
        invariant
            0 <= i <= n,
            n == ps@.len(),
            spec_lookup_position(position_views(ps@), id@) == spec_lookup_position(
                position_views(ps@).skip(i as int),
                id@,
            ),
        decreases n - i,
    {
        proof {
            assert(position_views(ps@).skip(i as int)[0] == position_views(ps@)[i as int]);
            assert(position_views(ps@)[i as int] == (ps@[i as int].0@, ps@[i as int].1@));
            assert(position_views(ps@).skip(i as int).skip(1) =~= position_views(ps@).skip(i + 1));
        }
        if str_eq(ps[i].0.as_str(), id) {
            let p = &ps[i].1;
            return Some(PdfPosition { page: p.page, x: p.x.clone(), y: p.y.clone() });
        }
        i = i + 1;
    }
    None
}

/// The view of an optional position.
pub open spec fn opt_pos_view(o: Option<PdfPosition>) -> Option<PdfPositionView> {
    match o {
        Some(p) => Some(p@),
        None => None,
    }
}

/// Merges the anchors with the rendered positions found for their labels:
/// one entry per anchor, in document order, each carrying its editor
/// position and the rendered position recorded for its identifier, when one
/// was.  An anchor without a match keeps an empty rendered side; that is
/// not an error.
pub fn attach_pdf_positions(
    anchors: &[AnchorMeta],
    positions: &Vec<(String, PdfPosition)>,
) -> (r: SourceMapPayload)
    ensures
        r.anchors@.len() == anchors@.len(),
        forall|i: int|
            0 <= i < anchors@.len() ==> {
                let e = #[trigger] r.anchors@[i];
                &&& e.id@ == anchors@[i].id@
                &&& e.editor.offset == anchors@[i].offset
                &&& e.editor.line == anchors@[i].line
                &&& e.editor.column == anchors@[i].column
                &&& opt_pos_view(e.pdf) == spec_lookup_position(
                    position_views(positions@),
                    anchors@[i].id@,
                )
            },
{
    let n: usize = anchors.len();
    let mut entries: Vec<AnchorEntry> = Vec::new();
    let mut i: usize = 0;
    while i < n
        invariant
            0 <= i <= n,
            n == anchors@.len(),
            entries@.len() == i,
            forall|k: int|
                0 <= k < i ==> {
                    let e = #[trigger] entries@[k];
                    &&& e.id@ == anchors@[k].id@
                    &&& e.editor.offset == anchors@[k].offset
                    &&& e.editor.line == anchors@[k].line
                    &&& e.editor.column == anchors@[k].column
                    &&& opt_pos_view(e.pdf) == spec_lookup_position(
                        position_views(positions@),
                        anchors@[k].id@,
                    )
                },
        decreases n - i,
    {
        let a = &anchors[i];
        let pdf = lookup_position(positions, a.id.as_str());
        entries.push(
            AnchorEntry {
                id: a.id.clone(),
                editor: EditorPosition { offset: a.offset, line: a.line, column: a.column },
                pdf,
            },
        );
        i = i + 1;
    }
    SourceMapPayload { anchors: entries }
}

/// The lookup map from anchor identifier to editor position that the
/// anchors denote, later entries winning.
pub open spec fn spec_anchor_lookup_map(anchors: Seq<AnchorMeta>) -> Map<String, EditorPosition>
    decreases anchors.len(),
{
    if anchors.len() == 0 {
        Map::<String, EditorPosition>::empty()
    } else {
        spec_anchor_lookup_map(anchors.drop_last()).insert(
            anchors.last().id,
            EditorPosition {
                offset: anchors.last().offset,
                line: anchors.last().line,
                column: anchors.last().column,
            },
        )
    }
}

/// Builds a hash lookup from anchor identifier to editor position.  The
/// contract is conditional on the standard hash-table model, as all vstd
/// hash specifications are.
pub fn anchors_to_lookup(anchors: &[AnchorMeta]) -> (r: std::collections::HashMap<
    String,
    EditorPosition,
>)
    ensures
        vstd::std_specs::hash::obeys_key_model::<String>()
            && vstd::std_specs::hash::builds_valid_hashers::<std::hash::RandomState>() ==> r@
            == spec_anchor_lookup_map(anchors@),
{
    let n: usize = anchors.len();
    let mut m: std::collections::HashMap<String, EditorPosition> =
        std::collections::HashMap::new();
    let mut i: usize = 0;
    proof {
        assert(anchors@.take(0) =~= Seq::<AnchorMeta>::empty());
    }
    while i < n
        invariant
            0 <= i <= n,
            n == anchors@.len(),
            vstd::std_specs::hash::obeys_key_model::<String>()
                && vstd::std_specs::hash::builds_valid_hashers::<std::hash::RandomState>() ==> m@
                == spec_anchor_lookup_map(anchors@.take(i as int)),
        decreases n - i,
    {
        let a = &anchors[i];
        m.insert(
            a.id.clone(),
            EditorPosition { offset: a.offset, line: a.line, column: a.column },
        );
        proof {
            assert(anchors@.take(i + 1).drop_last() =~= anchors@.take(i as int));
            assert(anchors@.take(i + 1).last() == anchors@[i as int]);
        }
        i = i + 1;
    }
    proof {
        assert(anchors@.take(n as int) =~= anchors@);
    }
    m
}

} // verus!
