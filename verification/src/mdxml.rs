//! The layout of an unpacked processor or report as the Configurator writes it:
//! descriptions of the object, of its templates and of its forms, the schemas
//! of its templates and the event handlers of its forms.

use vstd::prelude::*;
use vstd::utf8::encode_utf8;

use crate::dcs;
use crate::form_events::{self, opt_str, FormEventTable};
use crate::json::{self, Json, Tree};
use crate::sorting::{self, Named};
use crate::text;

verus! {

/// The namespaces of a description.
pub const MD_NAMESPACES: &'static str = "xmlns=\"http://v8.1c.ru/8.3/MDClasses\" xmlns:v8=\"http://v8.1c.ru/8.1/data/core\" xmlns:xsi=\"http://www.w3.org/2001/XMLSchema-instance\"";

/// The namespaces of a managed form.
pub const FORM_NAMESPACES: &'static str = "xmlns=\"http://v8.1c.ru/8.3/xcf/logform\" xmlns:app=\"http://v8.1c.ru/8.2/managed-application/core\" xmlns:cfg=\"http://v8.1c.ru/8.1/data/enterprise/current-config\" xmlns:dcscor=\"http://v8.1c.ru/8.1/data-composition-system/core\" xmlns:dcssch=\"http://v8.1c.ru/8.1/data-composition-system/schema\" xmlns:dcsset=\"http://v8.1c.ru/8.1/data-composition-system/settings\" xmlns:ent=\"http://v8.1c.ru/8.1/data/enterprise\" xmlns:lf=\"http://v8.1c.ru/8.2/managed-application/logform\" xmlns:style=\"http://v8.1c.ru/8.1/data/ui/style\" xmlns:sys=\"http://v8.1c.ru/8.1/data/ui/fonts/system\" xmlns:v8=\"http://v8.1c.ru/8.1/data/core\" xmlns:v8ui=\"http://v8.1c.ru/8.1/data/ui\" xmlns:web=\"http://v8.1c.ru/8.1/data/ui/colors/web\" xmlns:win=\"http://v8.1c.ru/8.1/data/ui/colors/windows\"";

/// The file with the data of a template.
pub const TEMPLATE_DATA_FILE: &'static str = "Template.bin";

// Objects.

/// The kind of an external object.
#[derive(Debug, Clone, Copy, PartialEq, Eq, Structural)]
pub enum ObjKind {
    Report,
    DataProcessor,
}

impl ObjKind {
    /// The directory of the kind.
    pub open spec fn dir(self) -> Seq<char> {
        match self {
            ObjKind::Report => "Reports"@,
            ObjKind::DataProcessor => "DataProcessors"@,
        }
    }

    /// The tag of the kind.
    pub open spec fn tag(self) -> Seq<char> {
        match self {
            ObjKind::Report => "Report"@,
            ObjKind::DataProcessor => "DataProcessor"@,
        }
    }

    /// The directory of the kind.
    pub fn dir_name(self) -> (r: &'static str)
        ensures
            r@ == self.dir(),
    {
        match self {
            ObjKind::Report => "Reports",
            ObjKind::DataProcessor => "DataProcessors",
        }
    }

    /// The tag of the kind.
    pub fn tag_name(self) -> (r: &'static str)
        ensures
            r@ == self.tag(),
    {
        match self {
            ObjKind::Report => "Report",
            ObjKind::DataProcessor => "DataProcessor",
        }
    }

    /// The file that describes an object of the kind.
    pub fn json_file(self) -> (r: &'static str)
        ensures
            r@ == match self {
                ObjKind::Report => "ExternalReport.json"@,
                ObjKind::DataProcessor => "ExternalDataProcessor.json"@,
            },
    {
        match self {
            ObjKind::Report => "ExternalReport.json",
            ObjKind::DataProcessor => "ExternalDataProcessor.json",
        }
    }
}

/// The kind of an object, by which of the two descriptions is there; that of a
/// report comes first.
pub fn detect_obj_kind(has_report: bool, has_processor: bool) -> (r: Option<ObjKind>)
    ensures
        r == if has_report {
            Some(ObjKind::Report)
        } else if has_processor {
            Some(ObjKind::DataProcessor)
        } else {
            None
        },
{
    if has_report {
        Some(ObjKind::Report)
    } else if has_processor {
        Some(ObjKind::DataProcessor)
    } else {
        None
    }
}

/// What the description of an object says.
#[derive(Debug, Clone)]
pub struct ObjHeader {
    pub name: String,
    pub synonym: String,
    pub comment: String,
    pub uuid: String,
}

/// What the description of an object says.
pub struct HeaderView {
    pub name: Seq<char>,
    pub synonym: Seq<char>,
    pub comment: Seq<char>,
    pub uuid: Seq<char>,
}

impl View for ObjHeader {
    type V = HeaderView;

    open spec fn view(&self) -> HeaderView {
        HeaderView {
            name: self.name@,
            synonym: self.synonym@,
            comment: self.comment@,
            uuid: self.uuid@,
        }
    }
}

/// A text, or an empty one.
pub open spec fn or_empty(s: Option<Seq<char>>) -> Seq<char> {
    match s {
        Some(t) => t,
        None => Seq::empty(),
    }
}

/// The Russian synonym that a description gives.
pub open spec fn synonym_of(t: Tree) -> Seq<char> {
    match json::field(t, "name2"@) {
        Some(names) => or_empty(json::text_field(names, "ru"@)),
        None => Seq::empty(),
    }
}

/// The description of an object; none where it has no name or no identifier.
pub open spec fn header_of(t: Tree) -> Option<HeaderView> {
    match (json::text_field(t, "name"@), json::text_field(t, "uuid"@)) {
        (Some(name), Some(uuid)) => if name.len() > 0 && uuid.len() > 0 {
            Some(
                HeaderView {
                    name,
                    synonym: synonym_of(t),
                    comment: or_empty(json::text_field(t, "comment"@)),
                    uuid,
                },
            )
        } else {
            None
        },
        _ => None,
    }
}

/// The view of an optional description.
pub open spec fn opt_header(h: Option<ObjHeader>) -> Option<HeaderView> {
    match h {
        Some(x) => Some(x@),
        None => None,
    }
}

/// A text, or an empty one.
fn text_or_empty(s: Option<String>) -> (r: String)
    ensures
        r@ == or_empty(text::opt_view(s)),
{
    match s {
        Some(t) => t,
        None => String::new(),
    }
}

/// The Russian synonym that a description gives.
fn read_synonym(value: &Json) -> (r: String)
    ensures
        r@ == synonym_of(value@),
{
    match value.get("name2") {
        Some(names) => text_or_empty(names.text("ru")),
        None => String::new(),
    }
}

/// The description of an object.
pub fn obj_header(value: &Json) -> (r: Option<ObjHeader>)
    ensures
        opt_header(r) == header_of(value@),
{
    match (value.text("name"), value.text("uuid")) {
        (Some(name), Some(uuid)) => {
            if name.as_str().is_empty() || uuid.as_str().is_empty() {
                return None;
            }
            Some(
                ObjHeader {
                    name,
                    synonym: read_synonym(value),
                    comment: text_or_empty(value.text("comment")),
                    uuid,
                },
            )
        },
        _ => None,
    }
}

/// The description of an object, from the text of its file; none where the
/// text is no JSON.
pub fn read_obj_header(file: &str) -> (r: Option<ObjHeader>)
    ensures
        match json::json(file@) {
            Some(t) => opt_header(r) == header_of(t),
            None => r is None,
        },
{
    match json::parse_json(file) {
        Some(value) => obj_header(&value),
        None => None,
    }
}

/// The identifier in a file of the form `{"uuid": "..."}`.
pub open spec fn uuid_in(t: Option<Tree>) -> Option<Seq<char>> {
    match t {
        Some(x) => match json::text_field(x, "uuid"@) {
            Some(s) => if s.len() > 0 {
                Some(s)
            } else {
                None
            },
            None => None,
        },
        None => None,
    }
}

/// The identifier in a document, if it is not empty.
pub fn uuid_of(value: &Option<Json>) -> (r: Option<String>)
    ensures
        text::opt_view(r) == uuid_in(json::opt_tree(*value)),
{
    match value {
        Some(v) => match v.text("uuid") {
            Some(s) => if s.as_str().is_empty() {
                None
            } else {
                Some(s)
            },
            None => None,
        },
        None => None,
    }
}

/// The identifier in a file of the form `{"uuid": "..."}`.
pub fn read_uuid(file: &str) -> (r: Option<String>)
    ensures
        text::opt_view(r) == uuid_in(json::json(file@)),
{
    uuid_of(&json::parse_json(file))
}

// Templates.

/// A template with a schema.
#[derive(Debug)]
pub struct TemplateInfo {
    pub header: ObjHeader,
    /// The path of its directory, as it is reported.
    pub dir: String,
    /// The document of its schema, or why there is none.
    pub document: Result<String, String>,
}

impl Named for TemplateInfo {
    open spec fn key(&self) -> Seq<char> {
        self.header.name@
    }

    fn name(&self) -> (r: &str) {
        self.header.name.as_str()
    }
}

/// What came of reading the description of a template.
#[derive(Debug)]
pub enum TemplateFound {
    /// It holds no schema.
    Other,
    /// It has no name or no identifier.
    Nameless,
    Schema(ObjHeader),
}

/// What came of reading the description of a template.
pub enum TemplateFoundView {
    Other,
    Nameless,
    Schema(HeaderView),
}

impl View for TemplateFound {
    type V = TemplateFoundView;

    open spec fn view(&self) -> TemplateFoundView {
        match *self {
            TemplateFound::Other => TemplateFoundView::Other,
            TemplateFound::Nameless => TemplateFoundView::Nameless,
            TemplateFound::Schema(h) => TemplateFoundView::Schema(h@),
        }
    }
}

/// What the description of a template says; a template without a name is named
/// after its directory.
pub open spec fn template_of(
    t: Option<Tree>,
    dir_name: Seq<char>,
    uuid: Option<Seq<char>>,
) -> TemplateFoundView {
    match t {
        None => TemplateFoundView::Other,
        Some(x) => if json::text_field(x, "type"@) != Some("scheme"@) {
            TemplateFoundView::Other
        } else {
            let name = match json::text_field(x, "name"@) {
                Some(n) => n,
                None => dir_name,
            };
            if name.len() == 0 || or_empty(uuid).len() == 0 {
                TemplateFoundView::Nameless
            } else {
                TemplateFoundView::Schema(
                    HeaderView {
                        name,
                        synonym: synonym_of(x),
                        comment: or_empty(json::text_field(x, "comment"@)),
                        uuid: or_empty(uuid),
                    },
                )
            }
        },
    }
}

/// What the description of a template says.
pub fn scheme_template(value: &Option<Json>, dir_name: &str, uuid: Option<String>) -> (r:
    TemplateFound)
    ensures
        r@ == template_of(json::opt_tree(*value), dir_name@, text::opt_view(uuid)),
{
    match value {
        None => TemplateFound::Other,
        Some(v) => {
            let is_scheme = match v.text("type") {
                Some(kind) => text::same(&kind, "scheme"),
                None => false,
            };
            if !is_scheme {
                return TemplateFound::Other;
            }
            let name = match v.text("name") {
                Some(n) => n,
                None => dir_name.to_owned(),
            };
            let uuid = text_or_empty(uuid);
            if name.as_str().is_empty() || uuid.as_str().is_empty() {
                return TemplateFound::Nameless;
            }
            TemplateFound::Schema(
                ObjHeader {
                    name,
                    synonym: read_synonym(v),
                    comment: text_or_empty(v.text("comment")),
                    uuid,
                },
            )
        },
    }
}

/// What the files of a template say: its description and, where there is one,
/// the file with its identifier.
pub fn read_template(file: &str, id_file: &Option<String>, dir_name: &str) -> (r: TemplateFound)
    ensures
        r@ == template_of(
            json::json(file@),
            dir_name@,
            match *id_file {
                Some(f) => uuid_in(json::json(f@)),
                None => None,
            },
        ),
{
    let uuid = match id_file {
        Some(f) => read_uuid(f),
        None => None,
    };
    scheme_template(&json::parse_json(file), dir_name, uuid)
}

// Handlers.

/// A handler of an event: its owner, the event and its name.
pub open spec fn handler_views(v: Seq<(String, String, String)>) -> Seq<
    (Seq<char>, Seq<char>, Seq<char>),
> {
    v.map_values(|h: (String, String, String)| (h.0@, h.1@, h.2@))
}

/// The last part of a path of names.
pub open spec fn last_name(s: Seq<char>) -> Seq<char> {
    match text::rsplit_once(s, "/"@) {
        Some((_, tail)) => tail,
        None => s,
    }
}

/// The texts and numbers inside a value, in their order.
pub open spec fn flat(t: Tree) -> Seq<Seq<char>>
    decreases t,
{
    match t {
        Tree::List(items) => flat_all(items),
        Tree::Text(s) => seq![s],
        Tree::Number(n) => seq![n],
        _ => Seq::empty(),
    }
}

/// The texts and numbers inside values, in their order.
pub open spec fn flat_all(items: Seq<Tree>) -> Seq<Seq<char>>
    decreases items,
{
    if items.len() == 0 {
        Seq::empty()
    } else {
        flat_all(items.drop_last()) + flat(items.last())
    }
}

/// What stands between the quotes of a text in quotes.
pub open spec fn unquoted(s: Seq<char>) -> Option<Seq<char>> {
    if s.len() >= 2 && s[0] == '"' && s.last() == '"' {
        Some(s.subrange(1, s.len() - 1))
    } else {
        None
    }
}

/// The identifier of an event and the name of its handler, where two
/// neighbours are such.
pub open spec fn event_pair(a: Seq<char>, b: Seq<char>) -> Option<(Seq<char>, Seq<char>)> {
    match unquoted(text::trim(b)) {
        Some(handler) => if text::is_uuid(text::trim(a)) && handler.len() > 0 {
            Some((text::lowered(text::trim(a)), handler))
        } else {
            None
        },
        None => None,
    }
}

/// The name of an event: that of the table, else what follows the name of the
/// owner in the name of the handler.
pub open spec fn event_of(
    names: Map<Seq<char>, Seq<char>>,
    id: Seq<char>,
    owner: Seq<char>,
    handler: Seq<char>,
) -> Option<Seq<char>> {
    match form_events::lookup(names, id) {
        Some(name) => Some(name),
        None => if text::starts(handler, owner) && handler.len() > owner.len()
            && !form_events::has_space(handler.skip(owner.len() as int)) {
            Some(handler.skip(owner.len() as int))
        } else {
            None
        },
    }
}

/// There is a handler of the event of the owner.
pub open spec fn is_handled(
    out: Seq<(Seq<char>, Seq<char>, Seq<char>)>,
    owner: Seq<char>,
    event: Seq<char>,
) -> bool {
    exists|i: int| 0 <= i < out.len() && (#[trigger] out[i]).0 == owner && out[i].1 == event
}

/// The handlers with those that the first `n` neighbours among the texts of an
/// owner give; the first handler of an event of an owner counts.
pub open spec fn with_pairs(
    out: Seq<(Seq<char>, Seq<char>, Seq<char>)>,
    texts: Seq<Seq<char>>,
    n: int,
    owner: Seq<char>,
    names: Map<Seq<char>, Seq<char>>,
) -> Seq<(Seq<char>, Seq<char>, Seq<char>)>
    decreases n,
{
    if n <= 0 {
        out
    } else {
        let head = with_pairs(out, texts, n - 1, owner, names);
        match event_pair(texts[n - 1], texts[n]) {
            Some((id, handler)) => match event_of(names, id, owner, handler) {
                Some(event) => if is_handled(head, owner, event) {
                    head
                } else {
                    head.push((owner, event, handler))
                },
                None => head,
            },
            None => head,
        }
    }
}

/// The handlers with those of an owner.
pub open spec fn with_owner(
    out: Seq<(Seq<char>, Seq<char>, Seq<char>)>,
    raw: Option<Tree>,
    owner: Seq<char>,
    names: Map<Seq<char>, Seq<char>>,
) -> Seq<(Seq<char>, Seq<char>, Seq<char>)> {
    match raw {
        Some(t) => if owner.len() > 0 {
            with_pairs(out, flat(t), flat(t).len() - 1, owner, names)
        } else {
            out
        },
        None => out,
    }
}

/// The handlers with those of the elements in a map of names.
pub open spec fn with_data(
    out: Seq<(Seq<char>, Seq<char>, Seq<char>)>,
    fields: Seq<(Seq<char>, Tree)>,
    names: Map<Seq<char>, Seq<char>>,
) -> Seq<(Seq<char>, Seq<char>, Seq<char>)>
    decreases fields.len(),
{
    if fields.len() == 0 {
        out
    } else {
        with_owner(
            with_data(out, fields.drop_last(), names),
            json::field(fields.last().1, "raw"@),
            last_name(fields.last().0),
            names,
        )
    }
}

/// The handlers with those of an entry and of the entries inside it.
pub open spec fn with_entry(
    out: Seq<(Seq<char>, Seq<char>, Seq<char>)>,
    entry: Tree,
    names: Map<Seq<char>, Seq<char>>,
) -> Seq<(Seq<char>, Seq<char>, Seq<char>)>
    decreases entry, 1nat,
{
    let own = match json::text_field(entry, "name"@) {
        Some(name) => with_owner(out, json::field(entry, "raw"@), last_name(name), names),
        None => out,
    };
    match entry {
        Tree::Object(fields) => with_children(own, fields, names),
        _ => own,
    }
}

/// The handlers with those of the entries in the last field of children.
pub open spec fn with_children(
    out: Seq<(Seq<char>, Seq<char>, Seq<char>)>,
    fields: Seq<(Seq<char>, Tree)>,
    names: Map<Seq<char>, Seq<char>>,
) -> Seq<(Seq<char>, Seq<char>, Seq<char>)>
    decreases fields, 0nat,
{
    if fields.len() == 0 {
        out
    } else if fields.last().0 == "child"@ {
        match fields.last().1 {
            Tree::List(items) => with_entries(out, items, names),
            _ => out,
        }
    } else {
        with_children(out, fields.drop_last(), names)
    }
}

/// The handlers with those of entries.
pub open spec fn with_entries(
    out: Seq<(Seq<char>, Seq<char>, Seq<char>)>,
    items: Seq<Tree>,
    names: Map<Seq<char>, Seq<char>>,
) -> Seq<(Seq<char>, Seq<char>, Seq<char>)>
    decreases items, 0nat,
{
    if items.len() == 0 {
        out
    } else {
        with_entry(with_entries(out, items.drop_last(), names), items.last(), names)
    }
}

/// The handlers with those of the entries in a field.
pub open spec fn with_list(
    out: Seq<(Seq<char>, Seq<char>, Seq<char>)>,
    list: Option<Tree>,
    names: Map<Seq<char>, Seq<char>>,
) -> Seq<(Seq<char>, Seq<char>, Seq<char>)> {
    match list {
        Some(Tree::List(items)) => with_entries(out, items, names),
        _ => out,
    }
}

/// The handlers of a form: those of its elements, of its properties and of its
/// commands.
pub open spec fn handlers_of(elem: Tree, names: Map<Seq<char>, Seq<char>>) -> Seq<
    (Seq<char>, Seq<char>, Seq<char>),
> {
    let data = match json::field(elem, "data"@) {
        Some(Tree::Object(fields)) => with_data(Seq::empty(), fields, names),
        _ => Seq::empty(),
    };
    with_list(with_list(data, json::field(elem, "props"@), names), json::field(
        elem,
        "commands"@,
    ), names)
}

/// The last part of a path of names.
fn last_segment(s: &str) -> (r: String)
    ensures
        r@ == last_name(s@),
{
    match text::rcut_once(s, "/") {
        Some((_, tail)) => tail,
        None => s.to_owned(),
    }
}

/// Appends the texts and numbers inside a value.
fn flatten_raw_strings(value: &Json, out: &mut Vec<String>)
    ensures
        text::views(final(out)@) == text::views(old(out)@) + flat(value@),
    decreases value,
{
    let ghost before = out@;
    match value {
        Json::List(items) => {
            let ghost all = json::trees(items@);
            proof {
                json::lemma_trees(items@);
            }
            for i in 0..items.len()
                invariant
                    decreases_to!(value => items@),
                    all.len() == items@.len(),
                    forall|k: int| 0 <= k < items@.len() ==> #[trigger] all[k] == json::tree(items@[k]),
                    text::views(out@) == text::views(before) + flat_all(all.take(i as int)),
            {
                assert(all.take(i + 1).drop_last() =~= all.take(i as int));
                let ghost here = text::views(out@);
                assert(decreases_to!(items@ => items@[i as int]));
                flatten_raw_strings(&items[i], out);
                assert(here + flat(all[i as int]) =~= text::views(before) + flat_all(
                    all.take(i + 1),
                ));
            }
            assert(all.take(items@.len() as int) =~= all);
        },
        Json::Text(s) => {
            out.push(s.clone());
            assert(text::views(out@) =~= text::views(before) + seq![s@]);
        },
        Json::Number(n) => {
            out.push(n.clone());
            assert(text::views(out@) =~= text::views(before) + seq![n@]);
        },
        _ => {
            assert(text::views(before) + Seq::<Seq<char>>::empty() =~= text::views(before));
        },
    }
}

/// What stands between the quotes of a text in quotes.
fn unquote(s: &str) -> (r: Option<String>)
    ensures
        text::opt_view(r) == unquoted(s@),
{
    let v = text::chars_of(s);
    let n: usize = v.len();
    if n >= 2 && v[0] == '"' && v[n - 1] == '"' {
        Some(text::string_of(&v[1..n - 1]))
    } else {
        None
    }
}

/// The identifier of an event and the name of its handler, where two
/// neighbours are such.
fn pair_of(a: &str, b: &str) -> (r: Option<(String, String)>)
    ensures
        text::pair_view(r) == event_pair(a@, b@),
{
    let id = text::trimmed(a);
    if !form_events::is_uuid_like(&id) {
        return None;
    }
    match unquote(&text::trimmed(b)) {
        Some(handler) => {
            if handler.as_str().is_empty() {
                return None;
            }
            Some((text::to_lowered(&text::chars_of(&id)), handler))
        },
        None => None,
    }
}

/// The name of an event.
fn event_name_for(id: &str, owner: &str, handler: &str, events: &FormEventTable) -> (r: Option<
    String,
>)
    requires
        text::is_ascii(id@),
    ensures
        text::opt_view(r) == event_of(events.names(), text::lowered(id@), owner@, handler@),
{
    if let Some(name) = events.event_name(id) {
        return Some(name.to_owned());
    }
    if !text::starts_with(handler, owner) {
        return None;
    }
    let v = text::chars_of(handler);
    let w = text::chars_of(owner);
    let n: usize = v.len();
    let m: usize = w.len();
    if m >= n {
        return None;
    }
    let tail = text::string_of(&v[m..n]);
    assert(tail@ =~= handler@.skip(owner@.len() as int));
    if form_events::contains_space(&tail) {
        return None;
    }
    Some(tail)
}

/// Whether there is a handler of the event of the owner.
fn has_handler(out: &Vec<(String, String, String)>, owner: &str, event: &str) -> (r: bool)
    ensures
        r == is_handled(handler_views(out@), owner@, event@),
{
    let ghost all = handler_views(out@);
    for i in 0..out.len()
        invariant
            all == handler_views(out@),
            forall|k: int| 0 <= k < i ==> !((#[trigger] all[k]).0 == owner@ && all[k].1 == event@),
    {
        assert(all[i as int] == (out@[i as int].0@, out@[i as int].1@, out@[i as int].2@));
        if text::same(&out[i].0, owner) && text::same(&out[i].1, event) {
            return true;
        }
    }
    false
}

proof fn lemma_uuid_ascii(s: Seq<char>)
    requires
        text::is_uuid(s),
    ensures
        text::is_ascii(text::lowered(s)),
        text::lowered(text::lowered(s)) == text::lowered(s),
{
    assert(text::lowered(text::lowered(s)) =~= text::lowered(s));
    assert forall|i: int| 0 <= i < text::lowered(s).len() implies (#[trigger] text::lowered(
        s,
    )[i] as u32) < 128 by {
        assert(text::lowered(s)[i] == text::lower_ascii(s[i]));
    }
}

/// Appends the handlers of an owner.
fn collect_handlers(
    raw: &Json,
    owner: &str,
    events: &FormEventTable,
    out: &mut Vec<(String, String, String)>,
)
    ensures
        handler_views(final(out)@) == with_pairs(
            handler_views(old(out)@),
            flat(raw@),
            flat(raw@).len() - 1,
            owner@,
            events.names(),
        ),
{
    let mut texts: Vec<String> = Vec::new();
    flatten_raw_strings(raw, &mut texts);
    let ghost all = flat(raw@);
    assert(text::views(texts@) =~= all);
    let ghost start = handler_views(out@);
    let ghost names = events.names();
    let n: usize = texts.len();
    if n == 0 {
        return;
    }
    for i in 0..n - 1
        invariant
            n == texts@.len(),
            n == all.len(),
            n > 0,
            all == text::views(texts@),
            names == events.names(),
            handler_views(out@) == with_pairs(start, all, i as int, owner@, names),
    {
        assert(all[i as int] == texts@[i as int]@);
        assert(all[i + 1] == texts@[i + 1]@);
        if let Some((id, handler)) = pair_of(&texts[i], &texts[i + 1]) {
            proof {
                lemma_uuid_ascii(text::trim(all[i as int]));
            }
            if let Some(event) = event_name_for(&id, owner, &handler, events) {
                if !has_handler(out, owner, &event) {
                    let ghost before = out@;
                    let ghost added = (owner@, event@, handler@);
                    out.push((owner.to_owned(), event, handler));
                    assert(handler_views(out@) =~= handler_views(before).push(added));
                }
            }
        }
    }
}

/// Appends the handlers of an owner, where there is one and it has some.
fn collect_owner(
    raw: Option<&Json>,
    owner: &str,
    events: &FormEventTable,
    out: &mut Vec<(String, String, String)>,
)
    ensures
        handler_views(final(out)@) == with_owner(
            handler_views(old(out)@),
            json::opt_ref(raw),
            owner@,
            events.names(),
        ),
{
    if let Some(value) = raw {
        if !owner.is_empty() {
            collect_handlers(value, owner, events, out);
        }
    }
}

/// Appends the handlers of an entry and of the entries inside it.
fn walk_entry(entry: &Json, events: &FormEventTable, out: &mut Vec<(String, String, String)>)
    ensures
        handler_views(final(out)@) == with_entry(
            handler_views(old(out)@),
            entry@,
            events.names(),
        ),
    decreases entry, 1nat,
{
    if let Some(name) = entry.text("name") {
        let owner = last_segment(&name);
        collect_owner(entry.get("raw"), &owner, events, out);
    }
    if let Json::Object(fields) = entry {
        let ghost all = json::field_trees(fields@);
        let ghost own = handler_views(out@);
        let ghost names = events.names();
        proof {
            json::lemma_field_trees(fields@);
            assert(all.take(all.len() as int) =~= all);
        }
        let mut i: usize = fields.len();
        while i > 0
            invariant
                decreases_to!(entry => fields@),
                i <= fields@.len(),
                names == events.names(),
                all.len() == fields@.len(),
                own == handler_views(out@),
                entry@ == Tree::Object(all),
                with_entry(handler_views(old(out)@), entry@, names) == with_children(
                    own,
                    all,
                    names,
                ),
                forall|k: int|
                    0 <= k < fields@.len() ==> #[trigger] all[k] == (
                        fields@[k].0@,
                        json::tree(fields@[k].1),
                    ),
                with_children(own, all.take(i as int), names) == with_children(own, all, names),
            decreases i,
        {
            i = i - 1;
            assert(all.take(i + 1).drop_last() =~= all.take(i as int));
            assert(all.take(i + 1).last() == all[i as int]);
            if text::same(&fields[i].0, "child") {
                if let Json::List(items) = &fields[i].1 {
                    assert(decreases_to!(fields@ => fields@[i as int]));
                    assert(decreases_to!(fields@[i as int] => fields@[i as int].1));
                    assert(decreases_to!(fields@[i as int].1 => items@));
                    walk_entries(items, events, out);
                }
                return;
            }
        }
    }
}

/// Appends the handlers of entries.
fn walk_entries(
    items: &Vec<Json>,
    events: &FormEventTable,
    out: &mut Vec<(String, String, String)>,
)
    ensures
        handler_views(final(out)@) == with_entries(
            handler_views(old(out)@),
            json::trees(items@),
            events.names(),
        ),
    decreases items@, 0nat,
{
    let ghost all = json::trees(items@);
    let ghost start = handler_views(out@);
    let ghost names = events.names();
    proof {
        json::lemma_trees(items@);
    }
    for i in 0..items.len()
        invariant
            names == events.names(),
            all.len() == items@.len(),
            forall|k: int| 0 <= k < items@.len() ==> #[trigger] all[k] == json::tree(items@[k]),
            handler_views(out@) == with_entries(start, all.take(i as int), names),
    {
        assert(all.take(i + 1).drop_last() =~= all.take(i as int));
        assert(decreases_to!(items@ => items@[i as int]));
        walk_entry(&items[i], events, out);
    }
    assert(all.take(items@.len() as int) =~= all);
}

/// The handlers of a form: owner, event and name of each.
pub fn extract_handlers(elem: &Json, events: &FormEventTable) -> (r: Vec<(String, String, String)>)
    ensures
        handler_views(r@) == handlers_of(elem@, events.names()),
{
    let mut out: Vec<(String, String, String)> = Vec::new();
    let ghost names = events.names();
    assert(handler_views(out@) =~= Seq::empty());
    if let Some(Json::Object(fields)) = elem.get("data") {
        let ghost all = json::field_trees(fields@);
        proof {
            json::lemma_field_trees(fields@);
        }
        for i in 0..fields.len()
            invariant
                names == events.names(),
                all.len() == fields@.len(),
                forall|k: int|
                    0 <= k < fields@.len() ==> #[trigger] all[k] == (
                        fields@[k].0@,
                        json::tree(fields@[k].1),
                    ),
                handler_views(out@) == with_data(Seq::empty(), all.take(i as int), names),
        {
            assert(all.take(i + 1).drop_last() =~= all.take(i as int));
            let owner = last_segment(&fields[i].0);
            collect_owner(fields[i].1.get("raw"), &owner, events, &mut out);
        }
        assert(all.take(fields@.len() as int) =~= all);
    }
    if let Some(Json::List(items)) = elem.get("props") {
        walk_entries(items, events, &mut out);
    }
    if let Some(Json::List(items)) = elem.get("commands") {
        walk_entries(items, events, &mut out);
    }
    out
}

// XML.

/// A character as it stands in XML.
pub open spec fn escaped_char(c: char) -> Seq<char> {
    if c == '&' {
        "&amp;"@
    } else if c == '<' {
        "&lt;"@
    } else if c == '>' {
        "&gt;"@
    } else if c == '"' {
        "&quot;"@
    } else {
        seq![c]
    }
}

/// A text as it stands in XML.
pub open spec fn escaped(s: Seq<char>) -> Seq<char>
    decreases s.len(),
{
    if s.len() == 0 {
        Seq::empty()
    } else {
        escaped(s.drop_last()) + escaped_char(s.last())
    }
}

/// A text as it stands in XML.
pub fn xml_escape(s: &str) -> (r: String)
    ensures
        r@ == escaped(s@),
{
    let v = text::chars_of(s);
    let mut out = String::new();
    for i in 0..v.len()
        invariant
            v@ == s@,
            out@ == escaped(s@.take(i as int)),
    {
        assert(s@.take(i + 1).drop_last() =~= s@.take(i as int));
        let c = v[i];
        if c == '&' {
            out.append("&amp;");
        } else if c == '<' {
            out.append("&lt;");
        } else if c == '>' {
            out.append("&gt;");
        } else if c == '"' {
            out.append("&quot;");
        } else {
            let ghost before = out@;
            out.push(c);
            assert(before.push(c) =~= before + seq![c]);
        }
    }
    assert(s@.take(v@.len() as int) =~= s@);
    out
}

/// The part of a description with its synonym, if there is one.
pub open spec fn synonym_xml(synonym: Seq<char>) -> Seq<char> {
    if synonym.len() == 0 {
        Seq::empty()
    } else {
        "\t\t\t<Synonym>\r\n\t\t\t\t<v8:item>\r\n\t\t\t\t\t<v8:lang>ru</v8:lang>\r\n\t\t\t\t\t<v8:content>"@
            + escaped(synonym)
            + "</v8:content>\r\n\t\t\t\t</v8:item>\r\n\t\t\t</Synonym>\r\n"@
    }
}

/// The part of a description with its comment, unless it is blank.
pub open spec fn comment_xml(comment: Seq<char>) -> Seq<char> {
    if text::trim(comment).len() == 0 {
        Seq::empty()
    } else {
        "\t\t\t\t<Comment>"@ + escaped(comment) + "</Comment>\r\n"@
    }
}

/// The beginning of a description of something with the given tag and
/// identifier, up to its name.
pub open spec fn description_head(tag: Seq<char>, uuid: Seq<char>, name: Seq<char>) -> Seq<char> {
    "<?xml version=\"1.0\" encoding=\"UTF-8\"?>\r\n<MetaDataObject "@ + MD_NAMESPACES@
        + " version=\"2.20\">\r\n\t<"@ + tag + " uuid=\""@ + uuid
        + "\">\r\n\t\t<Properties>\r\n\t\t\t<Name>"@ + escaped(name) + "</Name>\r\n"@
}

/// The end of a description of something with the given tag.
pub open spec fn description_tail(tag: Seq<char>) -> Seq<char> {
    "\t</"@ + tag + ">\r\n</MetaDataObject>\r\n"@
}

/// The beginning of a description with its synonym and comment.
pub open spec fn titled_head(tag: Seq<char>, h: HeaderView) -> Seq<char> {
    description_head(tag, h.uuid, h.name) + synonym_xml(h.synonym) + comment_xml(h.comment)
}

/// The description of the configuration that an object makes up.
pub open spec fn configuration_view(h: HeaderView) -> Seq<char> {
    titled_head("Configuration"@, h) + "\t\t</Properties>\r\n"@ + description_tail(
        "Configuration"@,
    )
}

/// The description of a template with a schema.
pub open spec fn template_view(h: HeaderView) -> Seq<char> {
    titled_head("Template"@, h)
        + "\t\t\t<TemplateType>DataCompositionSchema</TemplateType>\r\n\t\t</Properties>\r\n"@
        + description_tail("Template"@)
}

/// The description of a form.
pub open spec fn form_view(name: Seq<char>, uuid: Seq<char>) -> Seq<char> {
    description_head("Form"@, uuid, name)
        + "\t\t\t<FormType>Managed</FormType>\r\n\t\t</Properties>\r\n"@ + description_tail(
        "Form"@,
    )
}

/// The children of an object with the given tag.
pub open spec fn children_xml(tag: Seq<char>, names: Seq<Seq<char>>) -> Seq<char>
    decreases names.len(),
{
    if names.len() == 0 {
        Seq::empty()
    } else {
        children_xml(tag, names.drop_last()) + ("\t\t\t<"@ + tag + ">"@ + escaped(names.last())
            + "</"@ + tag + ">\r\n"@)
    }
}

/// The main schema of a report: its first template.
pub open spec fn main_schema_xml(kind: ObjKind, name: Seq<char>, templates: Seq<Seq<char>>) -> Seq<
    char,
> {
    if kind == ObjKind::Report && templates.len() > 0 {
        "\t\t\t<MainDataCompositionSchema>"@ + kind.tag() + "."@ + escaped(name) + ".Template."@
            + escaped(templates[0]) + "</MainDataCompositionSchema>\r\n"@
    } else {
        Seq::empty()
    }
}

/// The children of an object: its templates, then its forms.
pub open spec fn child_objects_xml(templates: Seq<Seq<char>>, forms: Seq<Seq<char>>) -> Seq<char> {
    if templates.len() == 0 && forms.len() == 0 {
        Seq::empty()
    } else {
        "\t\t<ChildObjects>\r\n"@ + children_xml("Template"@, templates) + children_xml(
            "Form"@,
            forms,
        ) + "\t\t</ChildObjects>\r\n"@
    }
}

/// The description of an object.
pub open spec fn object_view(
    kind: ObjKind,
    h: HeaderView,
    templates: Seq<Seq<char>>,
    forms: Seq<Seq<char>>,
) -> Seq<char> {
    titled_head(kind.tag(), h) + main_schema_xml(kind, h.name, templates)
        + "\t\t</Properties>\r\n"@ + child_objects_xml(templates, forms) + description_tail(
        kind.tag(),
    )
}

/// Appends the part of a description with its synonym.
fn push_synonym(out: &mut String, synonym: &str)
    ensures
        final(out)@ == old(out)@ + synonym_xml(synonym@),
{
    let ghost before = out@;
    if !synonym.is_empty() {
        let mut s =
            "\t\t\t<Synonym>\r\n\t\t\t\t<v8:item>\r\n\t\t\t\t\t<v8:lang>ru</v8:lang>\r\n\t\t\t\t\t<v8:content>".to_owned();
        let e = xml_escape(synonym);
        s.append(&e);
        s.append("</v8:content>\r\n\t\t\t\t</v8:item>\r\n\t\t\t</Synonym>\r\n");
        out.append(&s);
    } else {
        assert(before + Seq::<char>::empty() =~= before);
    }
}

/// Appends the part of a description with its comment.
fn push_comment(out: &mut String, comment: &str)
    ensures
        final(out)@ == old(out)@ + comment_xml(comment@),
{
    let ghost before = out@;
    if !text::trimmed(comment).as_str().is_empty() {
        let mut s = "\t\t\t\t<Comment>".to_owned();
        let e = xml_escape(comment);
        s.append(&e);
        s.append("</Comment>\r\n");
        out.append(&s);
    } else {
        assert(before + Seq::<char>::empty() =~= before);
    }
}

/// The beginning of a description, up to its name.
fn start_description(tag: &str, uuid: &str, name: &str) -> (r: String)
    ensures
        r@ == description_head(tag@, uuid@, name@),
{
    let mut s = "<?xml version=\"1.0\" encoding=\"UTF-8\"?>\r\n<MetaDataObject ".to_owned();
    s.append(MD_NAMESPACES);
    s.append(" version=\"2.20\">\r\n\t<");
    s.append(tag);
    s.append(" uuid=\"");
    s.append(uuid);
    s.append("\">\r\n\t\t<Properties>\r\n\t\t\t<Name>");
    let e = xml_escape(name);
    s.append(&e);
    s.append("</Name>\r\n");
    s
}

/// The beginning of a description with its synonym and comment.
fn start_titled(tag: &str, header: &ObjHeader) -> (r: String)
    ensures
        r@ == titled_head(tag@, header@),
{
    let mut s = start_description(tag, &header.uuid, &header.name);
    push_synonym(&mut s, &header.synonym);
    push_comment(&mut s, &header.comment);
    s
}

/// Appends the end of a description.
fn end_description(out: &mut String, tag: &str)
    ensures
        final(out)@ == old(out)@ + description_tail(tag@),
{
    let mut s = "\t</".to_owned();
    s.append(tag);
    s.append(">\r\n</MetaDataObject>\r\n");
    out.append(&s);
}

/// The description of the configuration that an object makes up.
pub fn configuration_xml(header: &ObjHeader) -> (r: String)
    ensures
        r@ == configuration_view(header@),
{
    let mut s = start_titled("Configuration", header);
    s.append("\t\t</Properties>\r\n");
    end_description(&mut s, "Configuration");
    s
}

/// The description of a template with a schema.
pub fn template_xml(header: &ObjHeader) -> (r: String)
    ensures
        r@ == template_view(header@),
{
    let mut s = start_titled("Template", header);
    s.append("\t\t\t<TemplateType>DataCompositionSchema</TemplateType>\r\n\t\t</Properties>\r\n");
    end_description(&mut s, "Template");
    s
}

/// The description of a form.
pub fn form_xml(name: &str, uuid: &str) -> (r: String)
    ensures
        r@ == form_view(name@, uuid@),
{
    let mut s = start_description("Form", uuid, name);
    s.append("\t\t\t<FormType>Managed</FormType>\r\n\t\t</Properties>\r\n");
    end_description(&mut s, "Form");
    s
}

/// The children of an object with the given tag.
fn write_children(tag: &str, names: &Vec<String>) -> (r: String)
    ensures
        r@ == children_xml(tag@, text::views(names@)),
{
    let ghost all = text::views(names@);
    let mut out = String::new();
    for i in 0..names.len()
        invariant
            all == text::views(names@),
            out@ == children_xml(tag@, all.take(i as int)),
    {
        assert(all.take(i + 1).drop_last() =~= all.take(i as int));
        assert(all[i as int] == names@[i as int]@);
        let mut s = "\t\t\t<".to_owned();
        s.append(tag);
        s.append(">");
        let e = xml_escape(&names[i]);
        s.append(&e);
        s.append("</");
        s.append(tag);
        s.append(">\r\n");
        out.append(&s);
    }
    assert(all.take(names@.len() as int) =~= all);
    out
}

/// The description of an object with the given templates and forms.
pub fn object_xml(
    kind: ObjKind,
    header: &ObjHeader,
    templates: &Vec<String>,
    forms: &Vec<String>,
) -> (r: String)
    ensures
        r@ == object_view(kind, header@, text::views(templates@), text::views(forms@)),
{
    let tag = kind.tag_name();
    let mut s = start_titled(tag, header);
    let mut main = String::new();
    if kind == ObjKind::Report && templates.len() > 0 {
        main.append("\t\t\t<MainDataCompositionSchema>");
        assert(main@ =~= "\t\t\t<MainDataCompositionSchema>"@);
        main.append(tag);
        main.append(".");
        let e = xml_escape(&header.name);
        main.append(&e);
        main.append(".Template.");
        let f = xml_escape(&templates[0]);
        main.append(&f);
        main.append("</MainDataCompositionSchema>\r\n");
        assert(text::views(templates@)[0] == templates@[0]@);
    }
    assert(main@ == main_schema_xml(kind, header.name@, text::views(templates@)));
    s.append(&main);
    s.append("\t\t</Properties>\r\n");
    let mut children = String::new();
    if templates.len() > 0 || forms.len() > 0 {
        children.append("\t\t<ChildObjects>\r\n");
        assert(children@ =~= "\t\t<ChildObjects>\r\n"@);
        let a = write_children("Template", templates);
        children.append(&a);
        let b = write_children("Form", forms);
        children.append(&b);
        children.append("\t\t</ChildObjects>\r\n");
    }
    assert(children@ == child_objects_xml(text::views(templates@), text::views(forms@)));
    s.append(&children);
    end_description(&mut s, tag);
    s
}

// Forms.

/// A form with its handlers.
#[derive(Debug, Clone)]
pub struct FormInfo {
    pub name: String,
    pub uuid: String,
    pub handlers: Vec<(String, String, String)>,
}

impl Named for FormInfo {
    open spec fn key(&self) -> Seq<char> {
        self.name@
    }

    fn name(&self) -> (r: &str) {
        self.name.as_str()
    }
}

/// The owners of handlers, each once, in the order in which they appear.
pub open spec fn owners_of(handlers: Seq<(Seq<char>, Seq<char>, Seq<char>)>) -> Seq<Seq<char>>
    decreases handlers.len(),
{
    if handlers.len() == 0 {
        Seq::empty()
    } else {
        let head = owners_of(handlers.drop_last());
        if head.contains(handlers.last().0) {
            head
        } else {
            head.push(handlers.last().0)
        }
    }
}

/// The events of an owner.
pub open spec fn events_xml(
    handlers: Seq<(Seq<char>, Seq<char>, Seq<char>)>,
    owner: Seq<char>,
) -> Seq<char>
    decreases handlers.len(),
{
    if handlers.len() == 0 {
        Seq::empty()
    } else {
        let (o, event, handler) = handlers.last();
        let head = events_xml(handlers.drop_last(), owner);
        if o == owner {
            head + ("\t\t\t\t<Event name=\""@ + escaped(event) + "\">"@ + escaped(handler)
                + "</Event>\r\n"@)
        } else {
            head
        }
    }
}

/// The elements of a form that have handlers.
pub open spec fn items_xml(
    handlers: Seq<(Seq<char>, Seq<char>, Seq<char>)>,
    owners: Seq<Seq<char>>,
) -> Seq<char>
    decreases owners.len(),
{
    if owners.len() == 0 {
        Seq::empty()
    } else {
        items_xml(handlers, owners.drop_last()) + ("\t\t<InputField name=\""@ + escaped(
            owners.last(),
        ) + "\">\r\n\t\t\t<Events>\r\n"@ + events_xml(handlers, owners.last())
            + "\t\t\t</Events>\r\n\t\t</InputField>\r\n"@)
    }
}

/// The content of a form: an element for each owner of handlers, with its
/// events.
pub open spec fn form_ext_view(handlers: Seq<(Seq<char>, Seq<char>, Seq<char>)>) -> Seq<char> {
    "<?xml version=\"1.0\" encoding=\"UTF-8\"?>\r\n<Form "@ + FORM_NAMESPACES@ + ">\r\n"@
        + if handlers.len() == 0 {
        "\t<ChildItems/>\r\n"@
    } else {
        "\t<ChildItems>\r\n"@ + items_xml(handlers, owners_of(handlers)) + "\t</ChildItems>\r\n"@
    } + "</Form>\r\n"@
}

/// The owners of handlers, each once.
fn collect_owners(handlers: &Vec<(String, String, String)>) -> (r: Vec<String>)
    ensures
        text::views(r@) == owners_of(handler_views(handlers@)),
{
    let ghost all = handler_views(handlers@);
    let mut out: Vec<String> = Vec::new();
    for i in 0..handlers.len()
        invariant
            all == handler_views(handlers@),
            text::views(out@) == owners_of(all.take(i as int)),
    {
        assert(all.take(i + 1).drop_last() =~= all.take(i as int));
        let owner = &handlers[i].0;
        assert(all[i as int].0 == owner@);
        let mut known = false;
        for k in 0..out.len()
            invariant
                owner@ == all[i as int].0,
                known == text::views(out@).take(k as int).contains(owner@),
        {
            let ghost views = text::views(out@);
            assert(views.take(k + 1) =~= views.take(k as int).push(views[k as int]));
            assert(views[k as int] == out@[k as int]@);
            proof {
                let a = views.take(k as int);
                let b = views.take(k + 1);
                if a.contains(owner@) {
                    let j = a.index_of(owner@);
                    assert(b[j] == owner@);
                }
                if b.contains(owner@) {
                    let j = b.index_of(owner@);
                    if j < k {
                        assert(a[j] == owner@);
                    }
                }
                assert(b[k as int] == views[k as int]);
            }
            if text::same(&out[k], owner) {
                known = true;
            }
        }
        assert(text::views(out@).take(out@.len() as int) =~= text::views(out@));
        if !known {
            let ghost before = out@;
            out.push(owner.clone());
            assert(text::views(out@) =~= text::views(before).push(owner@));
        }
    }
    assert(all.take(handlers@.len() as int) =~= all);
    out
}

/// The events of an owner.
fn write_events(handlers: &Vec<(String, String, String)>, owner: &str) -> (r: String)
    ensures
        r@ == events_xml(handler_views(handlers@), owner@),
{
    let ghost all = handler_views(handlers@);
    let mut out = String::new();
    for i in 0..handlers.len()
        invariant
            all == handler_views(handlers@),
            out@ == events_xml(all.take(i as int), owner@),
    {
        assert(all.take(i + 1).drop_last() =~= all.take(i as int));
        assert(all[i as int] == (
            handlers@[i as int].0@,
            handlers@[i as int].1@,
            handlers@[i as int].2@,
        ));
        if text::same(&handlers[i].0, owner) {
            let mut s = "\t\t\t\t<Event name=\"".to_owned();
            let e = xml_escape(&handlers[i].1);
            s.append(&e);
            s.append("\">");
            let f = xml_escape(&handlers[i].2);
            s.append(&f);
            s.append("</Event>\r\n");
            out.append(&s);
        }
    }
    assert(all.take(handlers@.len() as int) =~= all);
    out
}

/// The content of a form with the given handlers.
pub fn form_ext_xml(handlers: &Vec<(String, String, String)>) -> (r: String)
    ensures
        r@ == form_ext_view(handler_views(handlers@)),
{
    let mut s = "<?xml version=\"1.0\" encoding=\"UTF-8\"?>\r\n<Form ".to_owned();
    s.append(FORM_NAMESPACES);
    s.append(">\r\n");
    if handlers.len() == 0 {
        s.append("\t<ChildItems/>\r\n");
    } else {
        let ghost all = handler_views(handlers@);
        let owners = collect_owners(handlers);
        let ghost names = text::views(owners@);
        let mut items = String::new();
        for i in 0..owners.len()
            invariant
                all == handler_views(handlers@),
                names == text::views(owners@),
                items@ == items_xml(all, names.take(i as int)),
        {
            assert(names.take(i + 1).drop_last() =~= names.take(i as int));
            assert(names[i as int] == owners@[i as int]@);
            let mut one = "\t\t<InputField name=\"".to_owned();
            let e = xml_escape(&owners[i]);
            one.append(&e);
            one.append("\">\r\n\t\t\t<Events>\r\n");
            let events = write_events(handlers, &owners[i]);
            one.append(&events);
            one.append("\t\t\t</Events>\r\n\t\t</InputField>\r\n");
            items.append(&one);
        }
        assert(names.take(owners@.len() as int) =~= names);
        let mut block = "\t<ChildItems>\r\n".to_owned();
        block.append(&items);
        block.append("\t</ChildItems>\r\n");
        s.append(&block);
    }
    s.append("</Form>\r\n");
    s
}

/// What the description of the elements of a form says of its handlers; a form
/// without one has none.
pub open spec fn form_handlers(t: Option<Tree>, names: Map<Seq<char>, Seq<char>>) -> Seq<
    (Seq<char>, Seq<char>, Seq<char>),
> {
    match t {
        Some(elem) => handlers_of(elem, names),
        None => Seq::empty(),
    }
}

/// A form, from the files with its identifier and with its elements; none
/// where it has no identifier.
pub fn read_form(
    name: &str,
    id_file: &Option<String>,
    elem_file: &Option<String>,
    events: &FormEventTable,
) -> (r: Option<FormInfo>)
    ensures
        match r {
            Some(form) => {
                &&& form.name@ == name@
                &&& (match *id_file {
                    Some(f) => uuid_in(json::json(f@)),
                    None => None,
                }) == Some(form.uuid@)
                &&& handler_views(form.handlers@) == form_handlers(
                    match *elem_file {
                        Some(f) => json::json(f@),
                        None => None,
                    },
                    events.names(),
                )
            },
            None => match *id_file {
                Some(f) => uuid_in(json::json(f@)) is None,
                None => true,
            },
        },
{
    let uuid = match id_file {
        Some(f) => match read_uuid(f) {
            Some(u) => u,
            None => {
                return None;
            },
        },
        None => {
            return None;
        },
    };
    let handlers = match elem_file {
        Some(f) => match json::parse_json(f) {
            Some(elem) => extract_handlers(&elem, events),
            None => Vec::new(),
        },
        None => Vec::new(),
    };
    proof {
        if handlers@.len() == 0 {
            assert(handler_views(handlers@) =~= Seq::empty());
        }
    }
    Some(FormInfo { name: name.to_owned(), uuid, handlers })
}

// The layout.

/// What was laid out of an object.
#[derive(Debug, Clone, Copy, PartialEq, Eq, Structural)]
pub struct LayoutStats {
    /// Schemas that were written.
    pub schemas: usize,
    /// Forms that were written.
    pub forms: usize,
    /// Handlers in those forms.
    pub handlers: usize,
    /// Warnings.
    pub warnings: usize,
}

impl Default for LayoutStats {
    fn default() -> (r: Self)
        ensures
            r == (LayoutStats { schemas: 0, forms: 0, handlers: 0, warnings: 0 }),
    {
        LayoutStats { schemas: 0, forms: 0, handlers: 0, warnings: 0 }
    }
}

/// A step of the layout of an object.
#[derive(Debug)]
pub enum LayoutStep {
    /// Write a file, whose path is given by its parts below the directory of
    /// the object. A failure is a warning that begins with `label`.
    Write { path: Vec<String>, body: String, label: String, gain: Gain },
    /// A warning, whatever was written.
    Warn(String),
}

/// What a file that was written counts as, and whether the next step needs it.
#[derive(Debug, Clone, Copy, PartialEq, Eq, Structural)]
pub enum Gain {
    Nothing,
    /// A description, without which the next step is left out.
    Description,
    Schema,
    /// A form with so many handlers.
    Form(usize),
}

/// A step of the layout of an object.
#[verifier::ext_equal]
pub enum StepView {
    Write { path: Seq<Seq<char>>, body: Seq<char>, label: Seq<char>, gain: Gain },
    Warn(Seq<char>),
}

impl View for LayoutStep {
    type V = StepView;

    open spec fn view(&self) -> StepView {
        match *self {
            LayoutStep::Write { path, body, label, gain } => StepView::Write {
                path: text::views(path@),
                body: body@,
                label: label@,
                gain,
            },
            LayoutStep::Warn(m) => StepView::Warn(m@),
        }
    }
}

/// The views of steps.
pub open spec fn step_views(v: Seq<LayoutStep>) -> Seq<StepView> {
    v.map_values(|s: LayoutStep| s@)
}

/// The document of a template, or why there is none.
pub open spec fn document_view(d: Result<String, String>) -> Result<Seq<char>, Seq<char>> {
    match d {
        Ok(s) => Ok(s@),
        Err(e) => Err(e@),
    }
}

/// The steps of a template: its description and its schema, or a warning in
/// place of the schema.
pub open spec fn template_steps(
    root: Seq<Seq<char>>,
    h: HeaderView,
    dir: Seq<char>,
    document: Result<Seq<char>, Seq<char>>,
) -> Seq<StepView> {
    seq![
        StepView::Write {
            path: root + seq!["Templates"@, h.name + ".xml"@],
            body: template_view(h),
            label: dir + ": паспорт макета"@,
            gain: Gain::Description,
        },
        match document {
            Ok(body) => StepView::Write {
                path: root + seq!["Templates"@, h.name, "Ext"@, "Template.xml"@],
                body,
                label: dir + ": Ext/Template.xml"@,
                gain: Gain::Schema,
            },
            Err(why) => StepView::Warn(why),
        },
    ]
}

/// The steps of a form: its description and its content.
pub open spec fn form_steps(
    root: Seq<Seq<char>>,
    root_label: Seq<char>,
    name: Seq<char>,
    uuid: Seq<char>,
    handlers: Seq<(Seq<char>, Seq<char>, Seq<char>)>,
) -> Seq<StepView> {
    seq![
        StepView::Write {
            path: root + seq!["Forms"@, name + ".xml"@],
            body: form_view(name, uuid),
            label: root_label + ": паспорт формы "@ + name,
            gain: Gain::Description,
        },
        StepView::Write {
            path: root + seq!["Forms"@, name, "Ext"@, "Form.xml"@],
            body: form_ext_view(handlers),
            label: root_label + ": форма "@ + name,
            gain: Gain::Form(handlers.len() as usize),
        },
    ]
}

/// The steps of templates.
pub open spec fn templates_steps(root: Seq<Seq<char>>, templates: Seq<TemplateInfo>) -> Seq<
    StepView,
>
    decreases templates.len(),
{
    if templates.len() == 0 {
        Seq::empty()
    } else {
        let t = templates.last();
        templates_steps(root, templates.drop_last()) + template_steps(
            root,
            t.header@,
            t.dir@,
            document_view(t.document),
        )
    }
}

/// The steps of forms.
pub open spec fn forms_steps(
    root: Seq<Seq<char>>,
    root_label: Seq<char>,
    forms: Seq<FormInfo>,
) -> Seq<StepView>
    decreases forms.len(),
{
    if forms.len() == 0 {
        Seq::empty()
    } else {
        let f = forms.last();
        forms_steps(root, root_label, forms.drop_last()) + form_steps(
            root,
            root_label,
            f.name@,
            f.uuid@,
            handler_views(f.handlers@),
        )
    }
}

/// The names of templates.
pub open spec fn template_names(v: Seq<TemplateInfo>) -> Seq<Seq<char>> {
    v.map_values(|t: TemplateInfo| t.header.name@)
}

/// The names of forms.
pub open spec fn form_names(v: Seq<FormInfo>) -> Seq<Seq<char>> {
    v.map_values(|f: FormInfo| f.name@)
}

/// The steps of the layout of an object whose templates and forms are in
/// order.
pub open spec fn steps_of(
    kind: ObjKind,
    h: HeaderView,
    dir_label: Seq<char>,
    root_label: Seq<char>,
    templates: Seq<TemplateInfo>,
    forms: Seq<FormInfo>,
) -> Seq<StepView> {
    let root = seq![kind.dir(), h.name];
    seq![
        StepView::Write {
            path: seq!["Configuration.xml"@],
            body: configuration_view(h),
            label: dir_label + ": Configuration.xml"@,
            gain: Gain::Nothing,
        },
        StepView::Write {
            path: root + seq![h.name + ".xml"@],
            body: object_view(kind, h, template_names(templates), form_names(forms)),
            label: root_label + ": паспорт объекта"@,
            gain: Gain::Nothing,
        },
    ] + templates_steps(root, templates) + forms_steps(root, root_label, forms)
}

/// A text and another one behind it.
fn joined2(a: &str, b: &str) -> (r: String)
    ensures
        r@ == a@ + b@,
{
    let mut s = a.to_owned();
    s.append(b);
    s
}

/// The steps of a template.
fn plan_template(kind: ObjKind, object: &str, t: TemplateInfo) -> (r: (LayoutStep, LayoutStep))
    ensures
        seq![r.0@, r.1@] == template_steps(
            seq![kind.dir(), object@],
            t.header@,
            t.dir@,
            document_view(t.document),
        ),
{
    let ghost root = seq![kind.dir(), object@];
    let name_xml = joined2(&t.header.name, ".xml");
    let path = text::list4(kind.dir_name(), object, "Templates", &name_xml);
    assert(text::views(path@) =~= root + seq!["Templates"@, t.header.name@ + ".xml"@]);
    let first = LayoutStep::Write {
        path,
        body: template_xml(&t.header),
        label: joined2(&t.dir, ": паспорт макета"),
        gain: Gain::Description,
    };
    let second = match t.document {
        Ok(body) => {
            let path = text::list6(
                kind.dir_name(),
                object,
                "Templates",
                &t.header.name,
                "Ext",
                "Template.xml",
            );
            assert(text::views(path@) =~= root + seq![
                "Templates"@,
                t.header.name@,
                "Ext"@,
                "Template.xml"@,
            ]);
            LayoutStep::Write {
                path,
                body,
                label: joined2(&t.dir, ": Ext/Template.xml"),
                gain: Gain::Schema,
            }
        },
        Err(why) => LayoutStep::Warn(why),
    };
    (first, second)
}

/// The steps of a form.
fn plan_form(kind: ObjKind, object: &str, root_label: &str, f: &FormInfo) -> (r: (
    LayoutStep,
    LayoutStep,
))
    ensures
        seq![r.0@, r.1@] == form_steps(
            seq![kind.dir(), object@],
            root_label@,
            f.name@,
            f.uuid@,
            handler_views(f.handlers@),
        ),
{
    let ghost root = seq![kind.dir(), object@];
    let name_xml = joined2(&f.name, ".xml");
    let path = text::list4(kind.dir_name(), object, "Forms", &name_xml);
    assert(text::views(path@) =~= root + seq!["Forms"@, f.name@ + ".xml"@]);
    let mut label = joined2(root_label, ": паспорт формы ");
    label.append(&f.name);
    let first = LayoutStep::Write {
        path,
        body: form_xml(&f.name, &f.uuid),
        label,
        gain: Gain::Description,
    };
    let path = text::list6(kind.dir_name(), object, "Forms", &f.name, "Ext", "Form.xml");
    assert(text::views(path@) =~= root + seq!["Forms"@, f.name@, "Ext"@, "Form.xml"@]);
    let mut label = joined2(root_label, ": форма ");
    label.append(&f.name);
    let n: usize = f.handlers.len();
    assert(handler_views(f.handlers@).len() == n);
    let second = LayoutStep::Write {
        path,
        body: form_ext_xml(&f.handlers),
        label,
        gain: Gain::Form(n),
    };
    (first, second)
}

/// The steps of the layout of an object: its templates and forms are taken in
/// the order of their names.
pub fn layout_steps(
    kind: ObjKind,
    header: &ObjHeader,
    dir_label: &str,
    root_label: &str,
    templates: Vec<TemplateInfo>,
    forms: Vec<FormInfo>,
) -> (r: Vec<LayoutStep>)
    ensures
        step_views(r@) == steps_of(
            kind,
            header@,
            dir_label@,
            root_label@,
            sorting::in_order(templates@),
            sorting::in_order(forms@),
        ),
{
    let templates = sorting::sort_by_name(templates);
    let forms = sorting::sort_by_name(forms);
    let ghost all_templates = templates@;
    let ghost all_forms = forms@;
    let ghost root = seq![kind.dir(), header.name@];
    let mut template_list: Vec<String> = Vec::new();
    for i in 0..templates.len()
        invariant
            text::views(template_list@) == template_names(templates@).take(i as int),
    {
        let ghost before = template_list@;
        let name = templates[i].header.name.clone();
        template_list.push(name);
        assert(text::views(template_list@) =~= text::views(before).push(name@));
        assert(template_names(templates@).take(i + 1) =~= template_names(templates@).take(
            i as int,
        ).push(template_names(templates@)[i as int]));
    }
    assert(template_names(templates@).take(templates@.len() as int) =~= template_names(
        templates@,
    ));
    let mut form_list: Vec<String> = Vec::new();
    for i in 0..forms.len()
        invariant
            text::views(form_list@) == form_names(forms@).take(i as int),
    {
        let ghost before = form_list@;
        let name = forms[i].name.clone();
        form_list.push(name);
        assert(text::views(form_list@) =~= text::views(before).push(name@));
        assert(form_names(forms@).take(i + 1) =~= form_names(forms@).take(i as int).push(
            form_names(forms@)[i as int],
        ));
    }
    assert(form_names(forms@).take(forms@.len() as int) =~= form_names(forms@));
    let mut steps: Vec<LayoutStep> = Vec::new();
    let path = text::list1("Configuration.xml");
    let first = LayoutStep::Write {
        path,
        body: configuration_xml(header),
        label: joined2(dir_label, ": Configuration.xml"),
        gain: Gain::Nothing,
    };
    let name_xml = joined2(&header.name, ".xml");
    let path = text::list3(kind.dir_name(), &header.name, &name_xml);
    assert(text::views(path@) =~= root + seq![header.name@ + ".xml"@]);
    let second = LayoutStep::Write {
        path,
        body: object_xml(kind, header, &template_list, &form_list),
        label: joined2(root_label, ": паспорт объекта"),
        gain: Gain::Nothing,
    };
    let ghost head = seq![first@, second@];
    steps.push(first);
    steps.push(second);
    assert(step_views(steps@) =~= head);
    let mut rest = templates;
    let n: usize = rest.len();
    assert(head + templates_steps(root, all_templates.take(0)) =~= head);
    for i in 0..n
        invariant
            n == all_templates.len(),
            root == seq![kind.dir(), header.name@],
            rest@ == all_templates.skip(i as int),
            step_views(steps@) == head + templates_steps(root, all_templates.take(i as int)),
    {
        assert(all_templates.take(i + 1).drop_last() =~= all_templates.take(i as int));
        let t = rest.remove(0);
        assert(rest@ =~= all_templates.skip(i + 1));
        let ghost two = template_steps(root, t.header@, t.dir@, document_view(t.document));
        let (a, b) = plan_template(kind, &header.name, t);
        let ghost before = step_views(steps@);
        steps.push(a);
        steps.push(b);
        assert(step_views(steps@) =~= before + seq![a@, b@]);
        assert(before + two =~= head + (templates_steps(root, all_templates.take(i as int)) + two));
    }
    assert(all_templates.take(n as int) =~= all_templates);
    let ghost middle = head + templates_steps(root, all_templates);
    assert(middle + forms_steps(root, root_label@, all_forms.take(0)) =~= middle);
    for i in 0..forms.len()
        invariant
            all_forms == forms@,
            root == seq![kind.dir(), header.name@],
            step_views(steps@) == middle + forms_steps(root, root_label@, all_forms.take(i as int)),
    {
        assert(all_forms.take(i + 1).drop_last() =~= all_forms.take(i as int));
        let (a, b) = plan_form(kind, &header.name, root_label, &forms[i]);
        let ghost before = step_views(steps@);
        steps.push(a);
        steps.push(b);
        assert(step_views(steps@) =~= before + seq![a@, b@]);
        assert(before + seq![a@, b@] =~= middle + (forms_steps(
            root,
            root_label@,
            all_forms.take(i as int),
        ) + seq![a@, b@]));
    }
    assert(all_forms.take(forms@.len() as int) =~= all_forms);
    steps
}

/// The counts after a step with the given outcome; a number that does not fit
/// stays at the greatest one.
pub open spec fn counted(s: LayoutStats, step: StepView, ok: bool) -> LayoutStats {
    match step {
        StepView::Warn(_) => LayoutStats { warnings: up(s.warnings, 1), ..s },
        StepView::Write { gain, .. } => if !ok {
            LayoutStats { warnings: up(s.warnings, 1), ..s }
        } else {
            match gain {
                Gain::Schema => LayoutStats { schemas: up(s.schemas, 1), ..s },
                Gain::Form(n) => LayoutStats {
                    forms: up(s.forms, 1),
                    handlers: up(s.handlers, n),
                    ..s
                },
                _ => s,
            }
        },
    }
}

/// A sum, or the greatest number where the sum does not fit.
pub open spec fn up(a: usize, b: usize) -> usize {
    if a + b > usize::MAX {
        usize::MAX
    } else {
        (a + b) as usize
    }
}

/// The step is a description without which the next one is left out.
pub open spec fn is_description(step: StepView) -> bool {
    step matches StepView::Write { gain, .. } && gain is Description
}

/// The warning of a step that failed, or that is one.
pub open spec fn step_warning(step: StepView, error: Option<Seq<char>>) -> Option<Seq<char>> {
    match step {
        StepView::Warn(m) => Some("⚠ "@ + m),
        StepView::Write { label, .. } => match error {
            Some(e) => Some("⚠ "@ + label + " — "@ + e),
            None => None,
        },
    }
}

/// What follows from a step.
#[derive(Debug)]
pub struct StepDone {
    /// A warning for the log.
    pub warning: Option<String>,
    /// Whether the next step is left out.
    pub skip_next: bool,
}

impl LayoutStats {
    /// Counts a step; `error` is that of writing its file, if it failed.
    pub fn count(&mut self, step: &LayoutStep, error: &Option<String>) -> (r: StepDone)
        ensures
            *final(self) == counted(*old(self), step@, *error is None),
            text::opt_view(r.warning) == step_warning(step@, text::opt_view(*error)),
            r.skip_next == (is_description(step@) && *error is Some),
    {
        match step {
            LayoutStep::Warn(m) => {
                self.warnings = self.warnings.saturating_add(1);
                StepDone { warning: Some(joined2("⚠ ", m)), skip_next: false }
            },
            LayoutStep::Write { label, gain, .. } => {
                match error {
                    Some(e) => {
                        self.warnings = self.warnings.saturating_add(1);
                        let mut m = joined2("⚠ ", label);
                        m.append(" — ");
                        m.append(e);
                        StepDone { warning: Some(m), skip_next: *gain == Gain::Description }
                    },
                    None => {
                        match gain {
                            Gain::Schema => {
                                self.schemas = self.schemas.saturating_add(1);
                            },
                            Gain::Form(n) => {
                                self.forms = self.forms.saturating_add(1);
                                self.handlers = self.handlers.saturating_add(*n);
                            },
                            _ => {},
                        }
                        StepDone { warning: None, skip_next: false }
                    },
                }
            },
        }
    }
}

/// The bytes of a file of the layout: its text in UTF-8, after the mark of that
/// encoding.
pub fn file_bytes(body: &str) -> (r: Vec<u8>)
    ensures
        r@ == seq![0xefu8, 0xbb, 0xbf] + encode_utf8(body@),
{
    let mut bytes: Vec<u8> = vec![0xef, 0xbb, 0xbf];
    bytes.extend_from_slice(body.as_bytes());
    assert(bytes@ =~= seq![0xefu8, 0xbb, 0xbf] + encode_utf8(body@));
    bytes
}

/// The warning about an object without a description.
pub fn no_description(dir_label: &str) -> (r: String)
    ensures
        r@ == dir_label@
            + " — нет ни ExternalReport.json, ни ExternalDataProcessor.json: раскладка Конфигуратора пропущена"@,
{
    joined2(
        dir_label,
        " — нет ни ExternalReport.json, ни ExternalDataProcessor.json: раскладка Конфигуратора пропущена",
    )
}

/// The warning about an object whose description could not be read.
pub fn unread_description(file_label: &str) -> (r: String)
    ensures
        r@ == file_label@
            + " — паспорт объекта не прочитан (нет файла, не JSON или нет имени/uuid)"@,
{
    joined2(
        file_label,
        " — паспорт объекта не прочитан (нет файла, не JSON или нет имени/uuid)",
    )
}

/// The warning about a template without a name or identifier.
pub fn nameless_template(dir_label: &str) -> (r: String)
    ensures
        r@ == dir_label@
            + " — макет-схема без имени или uuid: раскладка макета пропущена"@,
{
    joined2(dir_label, " — макет-схема без имени или uuid: раскладка макета пропущена")
}

/// The warning about a form without an identifier; `class` is the kind of its
/// files.
pub fn nameless_form(dir_label: &str, class: &str) -> (r: String)
    ensures
        r@ == dir_label@ + " — нет "@ + class@ + ".id.json: форма в раскладку не попала"@,
{
    let mut m = joined2(dir_label, " — нет ");
    m.append(class);
    m.append(".id.json: форма в раскладку не попала");
    m
}

/// The document of a template, from what came of reading its data, or the
/// warning about it.
pub fn template_document(
    dir_label: &str,
    data: &Result<Vec<u8>, String>,
    entries: &Option<Vec<Vec<u8>>>,
) -> (r: Result<String, String>)
    ensures
        document_view(r) == match *data {
            Ok(bin) => match dcs::extracted(bin@, dcs::opt_texts(*entries)) {
                Some(d) => Ok::<Seq<char>, Seq<char>>(d),
                None => Err(
                    dir_label@ + " — в "@ + TEMPLATE_DATA_FILE@
                        + " нет разбираемого документа схемы компоновки данных"@,
                ),
            },
            Err(e) => Err(
                dir_label@ + " — нет данных макета ("@ + TEMPLATE_DATA_FILE@ + "): "@ + e@,
            ),
        },
{
    match data {
        Ok(bin) => match dcs::extract_dcs_xml(bin, entries) {
            Some(d) => Ok(d),
            None => {
                let mut m = joined2(dir_label, " — в ");
                m.append(TEMPLATE_DATA_FILE);
                m.append(" нет разбираемого документа схемы компоновки данных");
                Err(m)
            },
        },
        Err(e) => {
            let mut m = joined2(dir_label, " — нет данных макета (");
            m.append(TEMPLATE_DATA_FILE);
            m.append("): ");
            m.append(e);
            Err(m)
        },
    }
}

// Laws.

/// No two handlers are of the same event of the same owner.
pub open spec fn distinct(out: Seq<(Seq<char>, Seq<char>, Seq<char>)>) -> bool {
    forall|i: int, j: int|
        0 <= i < j < out.len() ==> (#[trigger] out[i]).0 != (#[trigger] out[j]).0 || out[i].1
            != out[j].1
}

proof fn lemma_pairs_distinct(
    out: Seq<(Seq<char>, Seq<char>, Seq<char>)>,
    texts: Seq<Seq<char>>,
    n: int,
    owner: Seq<char>,
    names: Map<Seq<char>, Seq<char>>,
)
    requires
        distinct(out),
    ensures
        distinct(with_pairs(out, texts, n, owner, names)),
    decreases n,
{
    if n > 0 {
        lemma_pairs_distinct(out, texts, n - 1, owner, names);
    }
}

proof fn lemma_owner_distinct(
    out: Seq<(Seq<char>, Seq<char>, Seq<char>)>,
    raw: Option<Tree>,
    owner: Seq<char>,
    names: Map<Seq<char>, Seq<char>>,
)
    requires
        distinct(out),
    ensures
        distinct(with_owner(out, raw, owner, names)),
{
    if let Some(t) = raw {
        lemma_pairs_distinct(out, flat(t), flat(t).len() - 1, owner, names);
    }
}

proof fn lemma_data_distinct(
    out: Seq<(Seq<char>, Seq<char>, Seq<char>)>,
    fields: Seq<(Seq<char>, Tree)>,
    names: Map<Seq<char>, Seq<char>>,
)
    requires
        distinct(out),
    ensures
        distinct(with_data(out, fields, names)),
    decreases fields.len(),
{
    if fields.len() > 0 {
        lemma_data_distinct(out, fields.drop_last(), names);
        lemma_owner_distinct(
            with_data(out, fields.drop_last(), names),
            json::field(fields.last().1, "raw"@),
            last_name(fields.last().0),
            names,
        );
    }
}

proof fn lemma_entry_distinct(
    out: Seq<(Seq<char>, Seq<char>, Seq<char>)>,
    entry: Tree,
    names: Map<Seq<char>, Seq<char>>,
)
    requires
        distinct(out),
    ensures
        distinct(with_entry(out, entry, names)),
    decreases entry, 1nat,
{
    let own = match json::text_field(entry, "name"@) {
        Some(name) => with_owner(out, json::field(entry, "raw"@), last_name(name), names),
        None => out,
    };
    if let Some(name) = json::text_field(entry, "name"@) {
        lemma_owner_distinct(out, json::field(entry, "raw"@), last_name(name), names);
    }
    if let Tree::Object(fields) = entry {
        lemma_children_distinct(own, fields, names);
    }
}

proof fn lemma_children_distinct(
    out: Seq<(Seq<char>, Seq<char>, Seq<char>)>,
    fields: Seq<(Seq<char>, Tree)>,
    names: Map<Seq<char>, Seq<char>>,
)
    requires
        distinct(out),
    ensures
        distinct(with_children(out, fields, names)),
    decreases fields, 0nat,
{
    if fields.len() > 0 {
        if fields.last().0 == "child"@ {
            if let Tree::List(items) = fields.last().1 {
                lemma_entries_distinct(out, items, names);
            }
        } else {
            lemma_children_distinct(out, fields.drop_last(), names);
        }
    }
}

proof fn lemma_entries_distinct(
    out: Seq<(Seq<char>, Seq<char>, Seq<char>)>,
    items: Seq<Tree>,
    names: Map<Seq<char>, Seq<char>>,
)
    requires
        distinct(out),
    ensures
        distinct(with_entries(out, items, names)),
    decreases items, 0nat,
{
    if items.len() > 0 {
        lemma_entries_distinct(out, items.drop_last(), names);
        lemma_entry_distinct(with_entries(out, items.drop_last(), names), items.last(), names);
    }
}

/// A form has one handler at most for an event of an owner.
pub proof fn handlers_are_distinct(elem: Tree, names: Map<Seq<char>, Seq<char>>)
    ensures
        distinct(handlers_of(elem, names)),
{
    let none = Seq::<(Seq<char>, Seq<char>, Seq<char>)>::empty();
    let data = match json::field(elem, "data"@) {
        Some(Tree::Object(fields)) => with_data(none, fields, names),
        _ => none,
    };
    if let Some(Tree::Object(fields)) = json::field(elem, "data"@) {
        lemma_data_distinct(none, fields, names);
    }
    if let Some(Tree::List(items)) = json::field(elem, "props"@) {
        lemma_entries_distinct(data, items, names);
    }
    let props = with_list(data, json::field(elem, "props"@), names);
    if let Some(Tree::List(items)) = json::field(elem, "commands"@) {
        lemma_entries_distinct(props, items, names);
    }
}

/// A text that is put into XML opens no tag, closes none and ends no quoted
/// value.
pub proof fn escaped_text_is_inert(s: Seq<char>)
    ensures
        !escaped(s).contains('<'),
        !escaped(s).contains('>'),
        !escaped(s).contains('"'),
    decreases s.len(),
{
    if s.len() > 0 {
        escaped_text_is_inert(s.drop_last());
        let a = escaped(s.drop_last());
        let b = escaped_char(s.last());
        reveal_strlit("&amp;");
        reveal_strlit("&lt;");
        reveal_strlit("&gt;");
        reveal_strlit("&quot;");
        assert forall|i: int| 0 <= i < escaped(s).len() implies (#[trigger] escaped(s)[i]) != '<'
            && escaped(s)[i] != '>' && escaped(s)[i] != '"' by {
            if i < a.len() {
                assert(a.contains(a[i]));
            } else {
                assert(escaped(s)[i] == b[i - a.len()]);
            }
        }
    }
}

/// Every step counts once: what is written adds to what was laid out, the rest
/// to the warnings. A schema that could not be had is a warning.
pub proof fn failures_are_counted(s: LayoutStats, step: StepView, ok: bool)
    requires
        s.warnings < usize::MAX,
    ensures
        counted(s, step, ok).warnings == s.warnings + if step is Warn || !ok {
            1int
        } else {
            0
        },
        step is Warn || !ok ==> counted(s, step, ok).schemas == s.schemas && counted(
            s,
            step,
            ok,
        ).forms == s.forms && counted(s, step, ok).handlers == s.handlers,
{
}

/// How often `p` stands in a text before the given place.
pub open spec fn count_to(s: Seq<char>, p: Seq<char>, n: int) -> nat
    decreases n,
{
    if n <= 0 {
        0
    } else if text::occurs_at(s, p, n - 1) {
        count_to(s, p, n - 1) + 1
    } else {
        count_to(s, p, n - 1)
    }
}

/// How often `p` stands in a text.
pub open spec fn count_of(s: Seq<char>, p: Seq<char>) -> nat {
    count_to(s, p, s.len() as int)
}

/// Whether `p` stands at a place of `s` is settled by `s` alone, whatever
/// follows it.
spec fn settled_at(s: Seq<char>, p: Seq<char>, i: int) -> bool {
    i + p.len() <= s.len() || exists|k: int|
        0 <= k < p.len() && i + k < s.len() && s[i + k] != #[trigger] p[k]
}

spec fn settled(s: Seq<char>, p: Seq<char>) -> bool {
    forall|i: int| 0 <= i < s.len() ==> #[trigger] settled_at(s, p, i)
}

proof fn lemma_occurs_in_front(a: Seq<char>, b: Seq<char>, p: Seq<char>, i: int)
    requires
        0 <= i < a.len(),
        settled_at(a, p, i),
    ensures
        text::occurs_at(a + b, p, i) == text::occurs_at(a, p, i),
{
    let s = a + b;
    if i + p.len() <= a.len() {
        assert(s.subrange(i, i + p.len()) =~= a.subrange(i, i + p.len()));
    } else {
        let k = choose|k: int| 0 <= k < p.len() && i + k < a.len() && a[i + k] != #[trigger] p[k];
        if text::occurs_at(s, p, i) {
            assert(s.subrange(i, i + p.len())[k] == s[i + k]);
        }
    }
}

proof fn lemma_count_in_front(a: Seq<char>, b: Seq<char>, p: Seq<char>, n: int)
    requires
        0 <= n <= a.len(),
        settled(a, p),
    ensures
        count_to(a + b, p, n) == count_to(a, p, n),
    decreases n,
{
    if n > 0 {
        lemma_count_in_front(a, b, p, n - 1);
        assert(settled_at(a, p, n - 1));
        lemma_occurs_in_front(a, b, p, n - 1);
    }
}

proof fn lemma_count_behind(a: Seq<char>, b: Seq<char>, p: Seq<char>, m: int)
    requires
        0 <= m <= b.len(),
        settled(a, p),
    ensures
        count_to(a + b, p, a.len() + m) == count_of(a, p) + count_to(b, p, m),
    decreases m,
{
    if m == 0 {
        lemma_count_in_front(a, b, p, a.len() as int);
    } else {
        lemma_count_behind(a, b, p, m - 1);
        let at = a.len() + m - 1;
        assert(a.len() + (m - 1) == at);
        if m - 1 + p.len() <= b.len() {
            assert((a + b).subrange(at, at + p.len()) =~= b.subrange(m - 1, m - 1 + p.len()));
        }
    }
}

/// Parts of a text that are settled are counted one by one.
proof fn lemma_count(a: Seq<char>, b: Seq<char>, p: Seq<char>)
    requires
        settled(a, p),
        settled(b, p),
    ensures
        settled(a + b, p),
        count_of(a + b, p) == count_of(a, p) + count_of(b, p),
{
    let s = a + b;
    lemma_count_behind(a, b, p, b.len() as int);
    assert forall|i: int| 0 <= i < s.len() implies #[trigger] settled_at(s, p, i) by {
        if i < a.len() {
            assert(settled_at(a, p, i));
            if i + p.len() > a.len() {
                let k = choose|k: int|
                    0 <= k < p.len() && i + k < a.len() && a[i + k] != #[trigger] p[k];
                assert(s[i + k] != p[k]);
            }
        } else {
            let j = i - a.len();
            assert(settled_at(b, p, j));
            if j + p.len() > b.len() {
                let k = choose|k: int|
                    0 <= k < p.len() && j + k < b.len() && b[j + k] != #[trigger] p[k];
                assert(s[i + k] != p[k]);
            }
        }
    }
}

/// A text in which each tag differs from `p` in its second character or in the
/// one at `d` holds no `p`.
proof fn lemma_other_tags(s: Seq<char>, p: Seq<char>, d: int)
    requires
        2 <= d < p.len(),
        p[0] == '<',
        forall|i: int|
            0 <= i < s.len() && #[trigger] s[i] == '<' ==> (i + 1 < s.len() && s[i + 1] != p[1])
                || (i + d < s.len() && s[i + d] != p[d]),
    ensures
        settled(s, p),
        count_of(s, p) == 0,
{
    assert forall|i: int| 0 <= i < s.len() implies #[trigger] settled_at(s, p, i)
        && !text::occurs_at(s, p, i) by {
        if s[i] != '<' {
            assert(s[i + 0] != p[0]);
            if text::occurs_at(s, p, i) {
                assert(s.subrange(i, i + p.len())[0] == s[i]);
            }
        } else {
            if text::occurs_at(s, p, i) {
                assert(s.subrange(i, i + p.len())[1] == s[i + 1]);
                assert(s.subrange(i, i + p.len())[d] == s[i + d]);
            }
            if i + 1 < s.len() && s[i + 1] != p[1] {
                assert(settled_at(s, p, i));
            } else {
                assert(s[i + d] != p[d]);
            }
        }
    }
    lemma_none_to(s, p, s.len() as int);
}

proof fn lemma_none_to(s: Seq<char>, p: Seq<char>, n: int)
    requires
        forall|i: int| 0 <= i < n ==> !#[trigger] text::occurs_at(s, p, i),
    ensures
        count_to(s, p, n) == 0,
    decreases n,
{
    if n > 0 {
        lemma_none_to(s, p, n - 1);
        assert(!text::occurs_at(s, p, n - 1));
    }
}

proof fn lemma_escaped_counts_nothing(s: Seq<char>, p: Seq<char>)
    requires
        3 <= p.len(),
        p[0] == '<',
    ensures
        settled(escaped(s), p),
        count_of(escaped(s), p) == 0,
{
    escaped_text_is_inert(s);
    let e = escaped(s);
    assert forall|i: int| 0 <= i < e.len() && #[trigger] e[i] == '<' implies false by {
        assert(e.contains(e[i]));
    }
    lemma_other_tags(e, p, 2);
}

/// An event as it stands in the content of a form.
pub open spec fn event_element(event: Seq<char>, handler: Seq<char>) -> Seq<char> {
    "<Event name=\""@ + escaped(event) + "\">"@ + escaped(handler) + "</Event>"@
}

/// The number of handlers of an owner.
pub open spec fn handler_count(
    handlers: Seq<(Seq<char>, Seq<char>, Seq<char>)>,
    owner: Seq<char>,
) -> nat {
    handlers.filter(|h: (Seq<char>, Seq<char>, Seq<char>)| h.0 == owner).len()
}

proof fn lemma_handler_count(handlers: Seq<(Seq<char>, Seq<char>, Seq<char>)>, owner: Seq<char>)
    requires
        handlers.len() > 0,
    ensures
        handler_count(handlers, owner) == handler_count(handlers.drop_last(), owner) + if handlers.last().0
            == owner {
            1nat
        } else {
            0
        },
{
    reveal(Seq::filter);
}

#[verifier::rlimit(40)]
proof fn lemma_events(handlers: Seq<(Seq<char>, Seq<char>, Seq<char>)>, owner: Seq<char>)
    ensures
        settled(events_xml(handlers, owner), "<Event name="@),
        settled(events_xml(handlers, owner), "</InputField>"@),
        count_of(events_xml(handlers, owner), "<Event name="@) == handler_count(handlers, owner),
        count_of(events_xml(handlers, owner), "</InputField>"@) == 0,
    decreases handlers.len(),
{
    let p = "<Event name="@;
    let q = "</InputField>"@;
    reveal_strlit("<Event name=");
    reveal_strlit("</InputField>");
    reveal(Seq::filter);
    if handlers.len() == 0 {
        lemma_other_tags(Seq::empty(), p, 2);
        lemma_other_tags(Seq::empty(), q, 2);
    } else {
        let (o, event, handler) = handlers.last();
        let head = events_xml(handlers.drop_last(), owner);
        lemma_events(handlers.drop_last(), owner);
        lemma_handler_count(handlers, owner);
        if o == owner {
            let a = "\t\t\t\t<Event name=\""@;
            let b = "\">"@;
            let c = "</Event>\r\n"@;
            reveal_strlit("\t\t\t\t<Event name=\"");
            reveal_strlit("\">");
            reveal_strlit("</Event>\r\n");
            let e = escaped(event);
            let f = escaped(handler);
            lemma_event_tag();
            lemma_other_tags(a, q, 2);
            lemma_other_tags(b, p, 2);
            lemma_other_tags(b, q, 2);
            lemma_other_tags(c, p, 2);
            lemma_other_tags(c, q, 2);
            lemma_escaped_counts_nothing(event, p);
            lemma_escaped_counts_nothing(event, q);
            lemma_escaped_counts_nothing(handler, p);
            lemma_escaped_counts_nothing(handler, q);
            lemma_count(a, e, p);
            lemma_count(a + e, b, p);
            lemma_count(a + e + b, f, p);
            lemma_count(a + e + b + f, c, p);
            lemma_count(head, a + e + b + f + c, p);
            lemma_count(a, e, q);
            lemma_count(a + e, b, q);
            lemma_count(a + e + b, f, q);
            lemma_count(a + e + b + f, c, q);
            lemma_count(head, a + e + b + f + c, q);
        }
    }
}

#[verifier::rlimit(40)]
proof fn lemma_event_tag()
    ensures
        settled("\t\t\t\t<Event name=\""@, "<Event name="@),
        count_of("\t\t\t\t<Event name=\""@, "<Event name="@) == 1,
{
    let a = "\t\t\t\t<Event name=\""@;
    let p = "<Event name="@;
    reveal_strlit("<Event name=");
    reveal_strlit("\t\t\t\t<Event name=\"");
    let front = a.take(4);
    let mid = a.subrange(4, 16);
    let back = a.skip(16);
    assert(mid =~= p);
    assert(a =~= front + mid + back);
    lemma_other_tags(front, p, 2);
    lemma_other_tags(back, p, 2);
    assert forall|i: int| 0 <= i < mid.len() implies #[trigger] settled_at(mid, p, i) by {
        if i > 0 {
            assert(mid[i + 0] != p[0]);
        }
    }
    assert(mid.subrange(0, 12) =~= p);
    assert(text::occurs_at(mid, p, 0));
    assert forall|i: int| 0 < i < 12 implies !#[trigger] text::occurs_at(mid, p, i) by {}
    lemma_one_to(mid, p, 12);
    lemma_count(front, mid, p);
    lemma_count(front + mid, back, p);
}

proof fn lemma_one_to(s: Seq<char>, p: Seq<char>, n: int)
    requires
        n >= 1,
        text::occurs_at(s, p, 0),
        forall|i: int| 0 < i < n ==> !#[trigger] text::occurs_at(s, p, i),
    ensures
        count_to(s, p, n) == 1,
    decreases n,
{
    if n > 1 {
        lemma_one_to(s, p, n - 1);
        assert(!text::occurs_at(s, p, n - 1));
    } else {
        assert(count_to(s, p, 0) == 0);
    }
}

/// The handlers of the given owners, altogether.
spec fn owned(
    handlers: Seq<(Seq<char>, Seq<char>, Seq<char>)>,
    owners: Seq<Seq<char>>,
) -> nat
    decreases owners.len(),
{
    if owners.len() == 0 {
        0
    } else {
        owned(handlers, owners.drop_last()) + handler_count(handlers, owners.last())
    }
}

proof fn lemma_owned_without(
    handlers: Seq<(Seq<char>, Seq<char>, Seq<char>)>,
    owners: Seq<Seq<char>>,
)
    requires
        handlers.len() > 0,
        owners.no_duplicates(),
    ensures
        owned(handlers, owners) == owned(handlers.drop_last(), owners) + if owners.contains(
            handlers.last().0,
        ) {
            1nat
        } else {
            0
        },
    decreases owners.len(),
{
    if owners.len() > 0 {
        let o = handlers.last().0;
        let rest = owners.drop_last();
        lemma_owned_without(handlers, rest);
        lemma_handler_count(handlers, owners.last());
        if rest.contains(o) {
            let k = rest.index_of(o);
            assert(owners[k] == o);
            assert(owners.last() != o);
        } else if owners.contains(o) {
            let k = owners.index_of(o);
            if k < rest.len() {
                assert(rest[k] == o);
            }
        } else {
            assert(owners.contains(owners.last()));
        }
    }
}

proof fn lemma_no_handlers(handlers: Seq<(Seq<char>, Seq<char>, Seq<char>)>, owner: Seq<char>)
    requires
        forall|i: int| 0 <= i < handlers.len() ==> (#[trigger] handlers[i]).0 != owner,
    ensures
        handler_count(handlers, owner) == 0,
    decreases handlers.len(),
{
    if handlers.len() > 0 {
        lemma_handler_count(handlers, owner);
        assert forall|i: int| 0 <= i < handlers.drop_last().len() implies (
        #[trigger] handlers.drop_last()[i]).0 != owner by {
            assert(handlers[i].0 != owner);
        }
        lemma_no_handlers(handlers.drop_last(), owner);
        assert(handlers[handlers.len() - 1].0 != owner);
    } else {
        reveal(Seq::filter);
    }
}

/// Every owner of a handler has an element, exactly one, and no other has.
pub proof fn owners_have_one_element(
    handlers: Seq<(Seq<char>, Seq<char>, Seq<char>)>,
    owner: Seq<char>,
)
    ensures
        owners_of(handlers).no_duplicates(),
        owners_of(handlers).contains(owner) <==> exists|i: int|
            0 <= i < handlers.len() && (#[trigger] handlers[i]).0 == owner,
    decreases handlers.len(),
{
    if handlers.len() > 0 {
        let rest = handlers.drop_last();
        owners_have_one_element(rest, owner);
        let head = owners_of(rest);
        let all = owners_of(handlers);
        let n = handlers.len() - 1;
        if head.contains(owner) {
            let k = head.index_of(owner);
            assert(all[k] == owner);
            let i = choose|i: int| 0 <= i < rest.len() && (#[trigger] rest[i]).0 == owner;
            assert(handlers[i].0 == owner);
        }
        if all.contains(owner) && !head.contains(owner) {
            let k = all.index_of(owner);
            if k < head.len() {
                assert(head[k] == owner);
            }
            assert(handlers[n].0 == owner);
        }
        if exists|i: int| 0 <= i < handlers.len() && (#[trigger] handlers[i]).0 == owner {
            let i = choose|i: int| 0 <= i < handlers.len() && (#[trigger] handlers[i]).0 == owner;
            if i < n {
                assert(rest[i].0 == owner);
            } else if !head.contains(owner) {
                assert(all[all.len() - 1] == owner);
            }
        }
        if !head.contains(handlers.last().0) {
            assert forall|i: int, j: int| 0 <= i < j < all.len() implies #[trigger] all[i]
                != #[trigger] all[j] by {
                assert(all[i] == head[i]);
                if j == head.len() {
                    assert(head.contains(head[i]));
                }
            }
        }
    }
}

proof fn lemma_all_owned(handlers: Seq<(Seq<char>, Seq<char>, Seq<char>)>)
    ensures
        owned(handlers, owners_of(handlers)) == handlers.len(),
    decreases handlers.len(),
{
    if handlers.len() > 0 {
        let rest = handlers.drop_last();
        let o = handlers.last().0;
        lemma_all_owned(rest);
        owners_have_one_element(rest, o);
        owners_have_one_element(handlers, o);
        let head = owners_of(rest);
        let all = owners_of(handlers);
        lemma_owned_without(handlers, all);
        assert(handlers[handlers.len() - 1].0 == o);
        if !head.contains(o) {
            assert(all.drop_last() =~= head);
            assert forall|i: int| 0 <= i < rest.len() implies (#[trigger] rest[i]).0 != o by {
                if rest[i].0 == o {
                    assert(head.contains(o));
                }
            }
            lemma_no_handlers(rest, o);
        }
    }
}

#[verifier::rlimit(40)]
proof fn lemma_items_count(
    handlers: Seq<(Seq<char>, Seq<char>, Seq<char>)>,
    owners: Seq<Seq<char>>,
)
    ensures
        settled(items_xml(handlers, owners), "<Event name="@),
        count_of(items_xml(handlers, owners), "<Event name="@) == owned(handlers, owners),
    decreases owners.len(),
{
    let p = "<Event name="@;
    reveal_strlit("<Event name=");
    if owners.len() == 0 {
        lemma_other_tags(Seq::empty(), p, 2);
    } else {
        let head = items_xml(handlers, owners.drop_last());
        lemma_items_count(handlers, owners.drop_last());
        let a = "\t\t<InputField name=\""@;
        let e = escaped(owners.last());
        let b = "\">\r\n\t\t\t<Events>\r\n"@;
        let x = events_xml(handlers, owners.last());
        let c = "\t\t\t</Events>\r\n\t\t</InputField>\r\n"@;
        reveal_strlit("\t\t<InputField name=\"");
        reveal_strlit("\">\r\n\t\t\t<Events>\r\n");
        reveal_strlit("\t\t\t</Events>\r\n\t\t</InputField>\r\n");
        lemma_other_tags(a, p, 6);
        lemma_other_tags(b, p, 6);
        lemma_other_tags(c, p, 6);
        lemma_escaped_counts_nothing(owners.last(), p);
        lemma_events(handlers, owners.last());
        lemma_count(a, e, p);
        lemma_count(a + e, b, p);
        lemma_count(a + e + b, x, p);
        lemma_count(a + e + b + x, c, p);
        lemma_count(head, a + e + b + x + c, p);
    }
}

/// The content of a form has as many events as the form has handlers.
#[verifier::rlimit(40)]
pub proof fn as_many_events_as_handlers(handlers: Seq<(Seq<char>, Seq<char>, Seq<char>)>)
    ensures
        count_of(form_ext_view(handlers), "<Event name="@) == handlers.len(),
{
    let p = "<Event name="@;
    reveal_strlit("<Event name=");
    let h = "<?xml version=\"1.0\" encoding=\"UTF-8\"?>\r\n<Form "@;
    let n = FORM_NAMESPACES@;
    let g = ">\r\n"@;
    let z = "</Form>\r\n"@;
    reveal_strlit("<?xml version=\"1.0\" encoding=\"UTF-8\"?>\r\n<Form ");
    reveal_strlit(">\r\n");
    reveal_strlit("</Form>\r\n");
    lemma_namespaces_have_no_tag();
    assert forall|i: int| 0 <= i < n.len() && #[trigger] n[i] == '<' implies false by {
        assert(n.contains(n[i]));
    }
    lemma_other_tags(h, p, 2);
    lemma_other_tags(n, p, 2);
    lemma_other_tags(g, p, 2);
    lemma_other_tags(z, p, 2);
    lemma_count(h, n, p);
    lemma_count(h + n, g, p);
    if handlers.len() == 0 {
        let m = "\t<ChildItems/>\r\n"@;
        reveal_strlit("\t<ChildItems/>\r\n");
        lemma_other_tags(m, p, 2);
        lemma_count(h + n + g, m, p);
        lemma_count(h + n + g + m, z, p);
    } else {
        let a = "\t<ChildItems>\r\n"@;
        let x = items_xml(handlers, owners_of(handlers));
        let b = "\t</ChildItems>\r\n"@;
        reveal_strlit("\t<ChildItems>\r\n");
        reveal_strlit("\t</ChildItems>\r\n");
        lemma_other_tags(a, p, 2);
        lemma_other_tags(b, p, 2);
        lemma_items_count(handlers, owners_of(handlers));
        lemma_all_owned(handlers);
        lemma_count(a, x, p);
        lemma_count(a + x, b, p);
        lemma_count(h + n + g, a + x + b, p);
        lemma_count(h + n + g + (a + x + b), z, p);
    }
}

#[verifier::rlimit(40)]
proof fn lemma_namespaces_have_no_tag()
    ensures
        !FORM_NAMESPACES@.contains('<'),
{
    let f = FORM_NAMESPACES@;
    reveal_strlit(
        "xmlns=\"http://v8.1c.ru/8.3/xcf/logform\" xmlns:app=\"http://v8.1c.ru/8.2/managed-application/core\" xmlns:cfg=\"http://v8.1c.ru/8.1/data/enterprise/current-config\" xmlns:dcscor=\"http://v8.1c.ru/8.1/data-composition-system/core\" xmlns:dcssch=\"http://v8.1c.ru/8.1/data-composition-system/schema\" xmlns:dcsset=\"http://v8.1c.ru/8.1/data-composition-system/settings\" xmlns:ent=\"http://v8.1c.ru/8.1/data/enterprise\" xmlns:lf=\"http://v8.1c.ru/8.2/managed-application/logform\" xmlns:style=\"http://v8.1c.ru/8.1/data/ui/style\" xmlns:sys=\"http://v8.1c.ru/8.1/data/ui/fonts/system\" xmlns:v8=\"http://v8.1c.ru/8.1/data/core\" xmlns:v8ui=\"http://v8.1c.ru/8.1/data/ui\" xmlns:web=\"http://v8.1c.ru/8.1/data/ui/colors/web\" xmlns:win=\"http://v8.1c.ru/8.1/data/ui/colors/windows\"",
    );
    assert forall|i: int| 0 <= i < f.len() implies #[trigger] f[i] != '<' by {}
}

#[verifier::rlimit(40)]
proof fn lemma_event_stands(
    handlers: Seq<(Seq<char>, Seq<char>, Seq<char>)>,
    i: int,
) -> (r: (Seq<char>, Seq<char>))
    requires
        0 <= i < handlers.len(),
    ensures
        events_xml(handlers, handlers[i].0) == r.0 + event_element(handlers[i].1, handlers[i].2)
            + r.1,
        count_of(r.0, "</InputField>"@) == 0,
        settled(r.0, "</InputField>"@),
    decreases handlers.len(),
{
    let owner = handlers[i].0;
    let n = handlers.len() - 1;
    let rest = handlers.drop_last();
    let (o, event, handler) = handlers.last();
    let line = "\t\t\t\t<Event name=\""@ + escaped(event) + "\">"@ + escaped(handler)
        + "</Event>\r\n"@;
    let whole = events_xml(handlers, owner);
    if i == n {
        let q = "</InputField>"@;
        let tabs = "\t\t\t\t<Event name=\""@.take(4);
        reveal_strlit("</InputField>");
        reveal_strlit("\t\t\t\t<Event name=\"");
        reveal_strlit("<Event name=\"");
        reveal_strlit("</Event>\r\n");
        reveal_strlit("</Event>");
        reveal_strlit("\r\n");
        assert("\t\t\t\t<Event name=\""@ =~= tabs + "<Event name=\""@);
        assert("</Event>\r\n"@ =~= "</Event>"@ + "\r\n"@);
        let head = events_xml(rest, owner);
        lemma_events(rest, owner);
        lemma_other_tags(tabs, q, 2);
        lemma_count(head, tabs, q);
        assert(whole =~= head + tabs + event_element(event, handler) + "\r\n"@);
        (head + tabs, "\r\n"@)
    } else {
        assert(rest[i] == handlers[i]);
        let (a, b) = lemma_event_stands(rest, i);
        if o == owner {
            assert(whole =~= a + event_element(handlers[i].1, handlers[i].2) + (b + line));
            (a, b + line)
        } else {
            (a, b)
        }
    }
}

#[verifier::rlimit(40)]
proof fn lemma_item_stands(
    handlers: Seq<(Seq<char>, Seq<char>, Seq<char>)>,
    owners: Seq<Seq<char>>,
    k: int,
) -> (r: (Seq<char>, Seq<char>))
    requires
        0 <= k < owners.len(),
    ensures
        items_xml(handlers, owners) == r.0 + ("<InputField name=\""@ + escaped(owners[k])
            + "\">\r\n\t\t\t<Events>\r\n"@) + events_xml(handlers, owners[k])
            + "\t\t\t</Events>\r\n\t\t</InputField>"@ + r.1,
    decreases owners.len(),
{
    let n = owners.len() - 1;
    let rest = owners.drop_last();
    let head = items_xml(handlers, rest);
    let mid = escaped(owners.last()) + "\">\r\n\t\t\t<Events>\r\n"@;
    let x = events_xml(handlers, owners.last());
    let item = "\t\t<InputField name=\""@ + escaped(owners.last()) + "\">\r\n\t\t\t<Events>\r\n"@ + x
        + "\t\t\t</Events>\r\n\t\t</InputField>\r\n"@;
    let whole = items_xml(handlers, owners);
    if k == n {
        let tabs = "\t\t<InputField name=\""@.take(2);
        reveal_strlit("\t\t<InputField name=\"");
        reveal_strlit("<InputField name=\"");
        reveal_strlit("\t\t\t</Events>\r\n\t\t</InputField>\r\n");
        reveal_strlit("\t\t\t</Events>\r\n\t\t</InputField>");
        reveal_strlit("\r\n");
        assert("\t\t<InputField name=\""@ =~= tabs + "<InputField name=\""@);
        assert("\t\t\t</Events>\r\n\t\t</InputField>\r\n"@
            =~= "\t\t\t</Events>\r\n\t\t</InputField>"@ + "\r\n"@);
        assert(whole =~= (head + tabs) + ("<InputField name=\""@ + escaped(owners[k])
            + "\">\r\n\t\t\t<Events>\r\n"@) + x + "\t\t\t</Events>\r\n\t\t</InputField>"@
            + "\r\n"@);
        (head + tabs, "\r\n"@)
    } else {
        assert(rest[k] == owners[k]);
        let (a, b) = lemma_item_stands(handlers, rest, k);
        assert(whole =~= a + ("<InputField name=\""@ + escaped(owners[k])
            + "\">\r\n\t\t\t<Events>\r\n"@) + events_xml(handlers, owners[k])
            + "\t\t\t</Events>\r\n\t\t</InputField>"@ + (b + item));
        (a, b + item)
    }
}

/// Every handler of a form stands in its content, inside the element of its
/// owner: between the beginning of that element and the event no element ends.
#[verifier::rlimit(40)]
pub proof fn every_handler_is_written(
    handlers: Seq<(Seq<char>, Seq<char>, Seq<char>)>,
    i: int,
) -> (r: (Seq<char>, Seq<char>, Seq<char>))
    requires
        0 <= i < handlers.len(),
    ensures
        form_ext_view(handlers) == r.0 + ("<InputField name=\""@ + escaped(handlers[i].0)
            + "\">\r\n\t\t\t<Events>\r\n"@) + r.1 + ("<Event name=\""@ + escaped(handlers[i].1)
            + "\">"@ + escaped(handlers[i].2) + "</Event>"@) + r.2,
        count_of(r.1, "</InputField>"@) == 0,
        text::has(r.2, "</InputField>"@),
{
    let owner = handlers[i].0;
    let owners = owners_of(handlers);
    owners_have_one_element(handlers, owner);
    assert(owners.contains(owner));
    let k = owners.index_of(owner);
    let (a, b) = lemma_item_stands(handlers, owners, k);
    let (c, d) = lemma_event_stands(handlers, i);
    let head = "<?xml version=\"1.0\" encoding=\"UTF-8\"?>\r\n<Form "@ + FORM_NAMESPACES@ + ">\r\n"@
        + "\t<ChildItems>\r\n"@;
    let tail = "\t</ChildItems>\r\n"@ + "</Form>\r\n"@;
    let open = "<InputField name=\""@ + escaped(owner) + "\">\r\n\t\t\t<Events>\r\n"@;
    let e = event_element(handlers[i].1, handlers[i].2);
    let close = "\t\t\t</Events>\r\n\t\t</InputField>"@;
    let last = d + close + b + tail;
    assert(form_ext_view(handlers) =~= (head + a) + open + c + e + last);
    let gap = close.take(close.len() - 13);
    reveal_strlit("</InputField>");
    reveal_strlit("\t\t\t</Events>\r\n\t\t</InputField>");
    assert(close =~= gap + "</InputField>"@);
    assert(last =~= (d + gap) + "</InputField>"@ + (b + tail));
    text::lemma_has_part(d + gap, "</InputField>"@, b + tail);
    (head + a, c, last)
}

/// The events of an owner stand in the order of its handlers: a handler more
/// adds its event behind the others of its owner, and changes no other owner.
pub proof fn events_stand_in_their_order(
    handlers: Seq<(Seq<char>, Seq<char>, Seq<char>)>,
    more: (Seq<char>, Seq<char>, Seq<char>),
    owner: Seq<char>,
)
    ensures
        events_xml(handlers.push(more), owner) == events_xml(handlers, owner) + if more.0 == owner {
            "\t\t\t\t<Event name=\""@ + escaped(more.1) + "\">"@ + escaped(more.2) + "</Event>\r\n"@
        } else {
            Seq::empty()
        },
{
    assert(handlers.push(more).drop_last() =~= handlers);
}

/// A text is escaped character by character: only the four that mean something
/// in XML are, each by its own name.
pub proof fn four_characters_are_escaped(s: Seq<char>, c: char)
    ensures
        escaped(s.push(c)) == escaped(s) + if c == '&' {
            "&amp;"@
        } else if c == '<' {
            "&lt;"@
        } else if c == '>' {
            "&gt;"@
        } else if c == '"' {
            "&quot;"@
        } else {
            seq![c]
        },
        escaped(Seq::empty()).len() == 0,
{
    assert(s.push(c).drop_last() =~= s);
}

/// A description has the name, the identifier, the synonym and the comment of
/// what it describes.
pub proof fn description_has_its_header(
    kind: ObjKind,
    h: HeaderView,
    templates: Seq<Seq<char>>,
    forms: Seq<Seq<char>>,
    body: Seq<char>,
)
    requires
        body == configuration_view(h) || body == template_view(h) || body == object_view(
            kind,
            h,
            templates,
            forms,
        ),
    ensures
        text::has(body, " uuid=\""@ + h.uuid + "\">"@),
        text::has(body, "<Name>"@ + escaped(h.name) + "</Name>"@),
        h.synonym.len() > 0 ==> text::has(
            body,
            "<v8:content>"@ + escaped(h.synonym) + "</v8:content>"@,
        ),
        text::trim(h.comment).len() > 0 ==> text::has(
            body,
            "<Comment>"@ + escaped(h.comment) + "</Comment>"@,
        ),
{
    if body == configuration_view(h) {
        let rest = "\t\t</Properties>\r\n"@ + description_tail("Configuration"@);
        assert(body =~= titled_head("Configuration"@, h) + rest);
        lemma_titled_head("Configuration"@, h, rest);
    } else if body == template_view(h) {
        let rest = "\t\t\t<TemplateType>DataCompositionSchema</TemplateType>\r\n\t\t</Properties>\r\n"@
            + description_tail("Template"@);
        assert(body =~= titled_head("Template"@, h) + rest);
        lemma_titled_head("Template"@, h, rest);
    } else {
        let rest = main_schema_xml(kind, h.name, templates) + "\t\t</Properties>\r\n"@
            + child_objects_xml(templates, forms) + description_tail(kind.tag());
        assert(body =~= titled_head(kind.tag(), h) + rest);
        lemma_titled_head(kind.tag(), h, rest);
    }
}

#[verifier::rlimit(40)]
proof fn lemma_titled_head(tag: Seq<char>, h: HeaderView, rest: Seq<char>)
    ensures
        text::has(titled_head(tag, h) + rest, " uuid=\""@ + h.uuid + "\">"@),
        text::has(titled_head(tag, h) + rest, "<Name>"@ + escaped(h.name) + "</Name>"@),
        h.synonym.len() > 0 ==> text::has(
            titled_head(tag, h) + rest,
            "<v8:content>"@ + escaped(h.synonym) + "</v8:content>"@,
        ),
        text::trim(h.comment).len() > 0 ==> text::has(
            titled_head(tag, h) + rest,
            "<Comment>"@ + escaped(h.comment) + "</Comment>"@,
        ),
{
    let body = titled_head(tag, h) + rest;
    let tail = synonym_xml(h.synonym) + comment_xml(h.comment) + rest;
    lemma_description_head(tag, h.uuid, h.name, tail);
    assert(body =~= description_head(tag, h.uuid, h.name) + tail);
    let head = description_head(tag, h.uuid, h.name);
    if h.synonym.len() > 0 {
        let x = "\t\t\t<Synonym>\r\n\t\t\t\t<v8:item>\r\n\t\t\t\t\t<v8:lang>ru</v8:lang>\r\n\t\t\t\t\t<v8:content>"@;
        let y = "</v8:content>\r\n\t\t\t\t</v8:item>\r\n\t\t\t</Synonym>\r\n"@;
        reveal_strlit(
            "\t\t\t<Synonym>\r\n\t\t\t\t<v8:item>\r\n\t\t\t\t\t<v8:lang>ru</v8:lang>\r\n\t\t\t\t\t<v8:content>",
        );
        reveal_strlit("</v8:content>\r\n\t\t\t\t</v8:item>\r\n\t\t\t</Synonym>\r\n");
        reveal_strlit("<v8:content>");
        reveal_strlit("</v8:content>");
        let x0 = x.take(x.len() - 12);
        let y1 = y.skip(13);
        assert(x =~= x0 + "<v8:content>"@);
        assert(y =~= "</v8:content>"@ + y1);
        let p = "<v8:content>"@ + escaped(h.synonym) + "</v8:content>"@;
        assert(body =~= (head + x0) + p + (y1 + comment_xml(h.comment) + rest));
        text::lemma_has_part(head + x0, p, y1 + comment_xml(h.comment) + rest);
    }
    if text::trim(h.comment).len() > 0 {
        reveal_strlit("\t\t\t\t<Comment>");
        reveal_strlit("</Comment>\r\n");
        reveal_strlit("<Comment>");
        reveal_strlit("</Comment>");
        let x0 = "\t\t\t\t<Comment>"@.take(4);
        let y1 = "</Comment>\r\n"@.skip(10);
        assert("\t\t\t\t<Comment>"@ =~= x0 + "<Comment>"@);
        assert("</Comment>\r\n"@ =~= "</Comment>"@ + y1);
        let p = "<Comment>"@ + escaped(h.comment) + "</Comment>"@;
        let front = head + synonym_xml(h.synonym) + x0;
        assert(body =~= front + p + (y1 + rest));
        text::lemma_has_part(front, p, y1 + rest);
    }
}

#[verifier::rlimit(40)]
proof fn lemma_description_head(
    tag: Seq<char>,
    uuid: Seq<char>,
    name: Seq<char>,
    rest: Seq<char>,
)
    ensures
        text::has(description_head(tag, uuid, name) + rest, " uuid=\""@ + uuid + "\">"@),
        text::has(description_head(tag, uuid, name) + rest, "<Name>"@ + escaped(name) + "</Name>"@),
{
    let body = description_head(tag, uuid, name) + rest;
    let x = "<?xml version=\"1.0\" encoding=\"UTF-8\"?>\r\n<MetaDataObject "@ + MD_NAMESPACES@
        + " version=\"2.20\">\r\n\t<"@ + tag;
    let m = "\">\r\n\t\t<Properties>\r\n\t\t\t<Name>"@;
    reveal_strlit("\">\r\n\t\t<Properties>\r\n\t\t\t<Name>");
    reveal_strlit("\">");
    reveal_strlit("<Name>");
    reveal_strlit("</Name>");
    reveal_strlit("</Name>\r\n");
    let m1 = m.skip(2);
    let m0 = m.take(m.len() - 6);
    assert(m =~= "\">"@ + m1);
    assert(m =~= m0 + "<Name>"@);
    let crlf = "</Name>\r\n"@.skip(7);
    assert("</Name>\r\n"@ =~= "</Name>"@ + crlf);
    let a = m1 + escaped(name) + "</Name>\r\n"@ + rest;
    assert(body =~= x + (" uuid=\""@ + uuid + "\">"@) + a);
    text::lemma_has_part(x, " uuid=\""@ + uuid + "\">"@, a);
    let p = "<Name>"@ + escaped(name) + "</Name>"@;
    let front = x + " uuid=\""@ + uuid + m0;
    assert(body =~= front + p + (crlf + rest));
    text::lemma_has_part(front, p, crlf + rest);
}

/// The description of a form has its name and identifier, and says that the
/// form is a managed one.
#[verifier::rlimit(40)]
pub proof fn form_has_its_description(name: Seq<char>, uuid: Seq<char>)
    ensures
        text::has(form_view(name, uuid), " uuid=\""@ + uuid + "\">"@),
        text::has(form_view(name, uuid), "<Name>"@ + escaped(name) + "</Name>"@),
        text::has(form_view(name, uuid), "<FormType>Managed</FormType>"@),
{
    let mid = "\t\t\t<FormType>Managed</FormType>\r\n\t\t</Properties>\r\n"@;
    let rest = mid + description_tail("Form"@);
    let head = description_head("Form"@, uuid, name);
    assert(form_view(name, uuid) =~= head + rest);
    lemma_description_head("Form"@, uuid, name, rest);
    let p = "<FormType>Managed</FormType>"@;
    reveal_strlit("\t\t\t<FormType>Managed</FormType>\r\n\t\t</Properties>\r\n");
    reveal_strlit("<FormType>Managed</FormType>");
    let a = mid.take(3);
    let b = mid.skip(31);
    assert(mid =~= a + p + b);
    assert(form_view(name, uuid) =~= (head + a) + p + (b + description_tail("Form"@)));
    text::lemma_has_part(head + a, p, b + description_tail("Form"@));
}

proof fn lemma_child_stands(tag: Seq<char>, names: Seq<Seq<char>>, i: int) -> (r: (
    Seq<char>,
    Seq<char>,
))
    requires
        0 <= i < names.len(),
    ensures
        children_xml(tag, names) == r.0 + ("<"@ + tag + ">"@ + escaped(names[i]) + "</"@ + tag
            + ">"@) + r.1,
    decreases names.len(),
{
    let n = names.len() - 1;
    let rest = names.drop_last();
    let head = children_xml(tag, rest);
    let p = "<"@ + tag + ">"@ + escaped(names[i]) + "</"@ + tag + ">"@;
    let whole = children_xml(tag, names);
    if i == n {
        reveal_strlit("\t\t\t<");
        reveal_strlit("<");
        reveal_strlit(">");
        reveal_strlit(">\r\n");
        reveal_strlit("\r\n");
        let tabs = "\t\t\t<"@.take(3);
        assert("\t\t\t<"@ =~= tabs + "<"@);
        assert(">\r\n"@ =~= ">"@ + "\r\n"@);
        assert(whole =~= (head + tabs) + p + "\r\n"@);
        (head + tabs, "\r\n"@)
    } else {
        assert(rest[i] == names[i]);
        let (a, b) = lemma_child_stands(tag, rest, i);
        let line = "\t\t\t<"@ + tag + ">"@ + escaped(names.last()) + "</"@ + tag + ">\r\n"@;
        assert(whole =~= a + p + (b + line));
        (a, b + line)
    }
}

/// The description of an object names every template and every form of it, and
/// that of a report names its first template as its main schema.
pub proof fn object_names_its_parts(
    kind: ObjKind,
    h: HeaderView,
    templates: Seq<Seq<char>>,
    forms: Seq<Seq<char>>,
    i: int,
)
    ensures
        0 <= i < templates.len() ==> text::has(
            object_view(kind, h, templates, forms),
            "<Template>"@ + escaped(templates[i]) + "</Template>"@,
        ),
        0 <= i < forms.len() ==> text::has(
            object_view(kind, h, templates, forms),
            "<Form>"@ + escaped(forms[i]) + "</Form>"@,
        ),
        kind == ObjKind::Report && templates.len() > 0 ==> text::has(
            object_view(kind, h, templates, forms),
            "<MainDataCompositionSchema>Report."@ + escaped(h.name) + ".Template."@ + escaped(
                templates[0],
            ) + "</MainDataCompositionSchema>"@,
        ),
        kind == ObjKind::DataProcessor || templates.len() == 0 ==> main_schema_xml(
            kind,
            h.name,
            templates,
        ).len() == 0,
{
    if 0 <= i < templates.len() {
        lemma_template_is_named(kind, h, templates, forms, i);
    }
    if 0 <= i < forms.len() {
        lemma_form_is_named(kind, h, templates, forms, i);
    }
    if kind == ObjKind::Report && templates.len() > 0 {
        lemma_schema_is_named(h, templates, forms);
    }
}

proof fn lemma_tags(name: Seq<char>)
    ensures
        "<"@ + "Template"@ + ">"@ + name + "</"@ + "Template"@ + ">"@ == "<Template>"@ + name
            + "</Template>"@,
        "<"@ + "Form"@ + ">"@ + name + "</"@ + "Form"@ + ">"@ == "<Form>"@ + name + "</Form>"@,
{
    reveal_strlit("<");
    reveal_strlit("</");
    reveal_strlit(">");
    reveal_strlit("Template");
    reveal_strlit("Form");
    reveal_strlit("<Template>");
    reveal_strlit("</Template>");
    reveal_strlit("<Form>");
    reveal_strlit("</Form>");
    assert("<"@ + "Template"@ + ">"@ =~= "<Template>"@);
    assert("</"@ + "Template"@ + ">"@ =~= "</Template>"@);
    assert("<"@ + "Form"@ + ">"@ =~= "<Form>"@);
    assert("</"@ + "Form"@ + ">"@ =~= "</Form>"@);
    assert("<"@ + "Template"@ + ">"@ + name + "</"@ + "Template"@ + ">"@ =~= ("<"@ + "Template"@
        + ">"@) + name + ("</"@ + "Template"@ + ">"@));
    assert("<"@ + "Form"@ + ">"@ + name + "</"@ + "Form"@ + ">"@ =~= ("<"@ + "Form"@ + ">"@) + name
        + ("</"@ + "Form"@ + ">"@));
}

#[verifier::rlimit(40)]
proof fn lemma_template_is_named(
    kind: ObjKind,
    h: HeaderView,
    templates: Seq<Seq<char>>,
    forms: Seq<Seq<char>>,
    i: int,
)
    requires
        0 <= i < templates.len(),
    ensures
        text::has(
            object_view(kind, h, templates, forms),
            "<Template>"@ + escaped(templates[i]) + "</Template>"@,
        ),
{
    let (a, b) = lemma_child_stands("Template"@, templates, i);
    let p = "<Template>"@ + escaped(templates[i]) + "</Template>"@;
    lemma_tags(escaped(templates[i]));
    let front = titled_head(kind.tag(), h) + main_schema_xml(kind, h.name, templates)
        + "\t\t</Properties>\r\n"@ + "\t\t<ChildObjects>\r\n"@ + a;
    let back = b + children_xml("Form"@, forms) + "\t\t</ChildObjects>\r\n"@ + description_tail(
        kind.tag(),
    );
    assert(children_xml("Template"@, templates) == a + p + b);
    assert(object_view(kind, h, templates, forms) =~= front + p + back);
    text::lemma_has_part(front, p, back);
}

#[verifier::rlimit(40)]
proof fn lemma_form_is_named(
    kind: ObjKind,
    h: HeaderView,
    templates: Seq<Seq<char>>,
    forms: Seq<Seq<char>>,
    i: int,
)
    requires
        0 <= i < forms.len(),
    ensures
        text::has(
            object_view(kind, h, templates, forms),
            "<Form>"@ + escaped(forms[i]) + "</Form>"@,
        ),
{
    let (a, b) = lemma_child_stands("Form"@, forms, i);
    let p = "<Form>"@ + escaped(forms[i]) + "</Form>"@;
    lemma_tags(escaped(forms[i]));
    let front = titled_head(kind.tag(), h) + main_schema_xml(kind, h.name, templates)
        + "\t\t</Properties>\r\n"@ + "\t\t<ChildObjects>\r\n"@ + children_xml(
        "Template"@,
        templates,
    ) + a;
    let back = b + "\t\t</ChildObjects>\r\n"@ + description_tail(kind.tag());
    assert(children_xml("Form"@, forms) == a + p + b);
    assert(object_view(kind, h, templates, forms) =~= front + p + back);
    text::lemma_has_part(front, p, back);
}

#[verifier::rlimit(40)]
proof fn lemma_schema_is_named(h: HeaderView, templates: Seq<Seq<char>>, forms: Seq<Seq<char>>)
    requires
        templates.len() > 0,
    ensures
        text::has(
            object_view(ObjKind::Report, h, templates, forms),
            "<MainDataCompositionSchema>Report."@ + escaped(h.name) + ".Template."@ + escaped(
                templates[0],
            ) + "</MainDataCompositionSchema>"@,
        ),
{
    let x = "\t\t\t<MainDataCompositionSchema>"@;
    let y = "</MainDataCompositionSchema>\r\n"@;
    let name = escaped(h.name);
    let first = escaped(templates[0]);
    let p = "<MainDataCompositionSchema>Report."@ + name + ".Template."@ + first
        + "</MainDataCompositionSchema>"@;
    let schema = main_schema_xml(ObjKind::Report, h.name, templates);
    let (tabs, crlf) = lemma_schema_tags();
    assert(schema =~= (x + "Report"@ + "."@) + name + ".Template."@ + first + y);
    assert(schema =~= tabs + p + crlf);
    let head = titled_head("Report"@, h);
    let back = crlf + "\t\t</Properties>\r\n"@ + child_objects_xml(templates, forms)
        + description_tail("Report"@);
    assert(object_view(ObjKind::Report, h, templates, forms) =~= (head + tabs) + p + back);
    text::lemma_has_part(head + tabs, p, back);
}

#[verifier::rlimit(40)]
proof fn lemma_schema_tags() -> (r: (Seq<char>, Seq<char>))
    ensures
        "\t\t\t<MainDataCompositionSchema>"@ + "Report"@ + "."@ == r.0
            + "<MainDataCompositionSchema>Report."@,
        "</MainDataCompositionSchema>\r\n"@ == "</MainDataCompositionSchema>"@ + r.1,
{
    reveal_strlit("\t\t\t<MainDataCompositionSchema>");
    reveal_strlit("Report");
    reveal_strlit(".");
    reveal_strlit("<MainDataCompositionSchema>Report.");
    reveal_strlit("</MainDataCompositionSchema>\r\n");
    reveal_strlit("</MainDataCompositionSchema>");
    let tabs = "\t\t\t<MainDataCompositionSchema>"@.take(3);
    let crlf = "</MainDataCompositionSchema>\r\n"@.skip(28);
    assert("\t\t\t<MainDataCompositionSchema>"@ + "Report"@ + "."@ =~= tabs
        + "<MainDataCompositionSchema>Report."@);
    assert("</MainDataCompositionSchema>\r\n"@ =~= "</MainDataCompositionSchema>"@ + crlf);
    (tabs, crlf)
}

/// Each template is laid out: its description under `Templates`, and its schema
/// where it could be had, else the warning about it.
#[verifier::rlimit(40)]
pub proof fn every_template_is_laid_out(
    kind: ObjKind,
    h: HeaderView,
    dir_label: Seq<char>,
    root_label: Seq<char>,
    templates: Seq<TemplateInfo>,
    forms: Seq<FormInfo>,
    i: int,
)
    requires
        0 <= i < templates.len(),
    ensures
        ({
            let steps = steps_of(kind, h, dir_label, root_label, templates, forms);
            let root = match kind {
                ObjKind::Report => seq!["Reports"@, h.name],
                ObjKind::DataProcessor => seq!["DataProcessors"@, h.name],
            };
            let t = templates[i].header@;
            &&& steps.len() == 2 + 2 * templates.len() + 2 * forms.len()
            &&& steps[2 + 2 * i] matches StepView::Write { path, body, gain, .. } && path == root
                + seq!["Templates"@, t.name + ".xml"@] && body == template_view(t) && gain
                == Gain::Description
            &&& match templates[i].document {
                Ok(d) => steps[3 + 2 * i] matches StepView::Write { path, body, gain, .. } && path
                    == root + seq!["Templates"@, t.name, "Ext"@, "Template.xml"@] && body == d@
                    && gain == Gain::Schema,
                Err(e) => steps[3 + 2 * i] == StepView::Warn(e@),
            }
        }),
{
    let root = seq![kind.dir(), h.name];
    lemma_templates_steps(root, templates, i);
    lemma_forms_len(root, root_label, forms);
}

proof fn lemma_forms_len(root: Seq<Seq<char>>, root_label: Seq<char>, forms: Seq<FormInfo>)
    ensures
        forms_steps(root, root_label, forms).len() == 2 * forms.len(),
    decreases forms.len(),
{
    if forms.len() > 0 {
        lemma_forms_len(root, root_label, forms.drop_last());
    }
}

proof fn lemma_templates_len(root: Seq<Seq<char>>, templates: Seq<TemplateInfo>)
    ensures
        templates_steps(root, templates).len() == 2 * templates.len(),
    decreases templates.len(),
{
    if templates.len() > 0 {
        lemma_templates_len(root, templates.drop_last());
    }
}

proof fn lemma_templates_steps(root: Seq<Seq<char>>, templates: Seq<TemplateInfo>, i: int)
    requires
        0 <= i < templates.len(),
    ensures
        templates_steps(root, templates).len() == 2 * templates.len(),
        ({
            let t = templates[i];
            let two = template_steps(root, t.header@, t.dir@, document_view(t.document));
            templates_steps(root, templates)[2 * i] == two[0] && templates_steps(
                root,
                templates,
            )[2 * i + 1] == two[1]
        }),
    decreases templates.len(),
{
    lemma_templates_len(root, templates);
    lemma_templates_len(root, templates.drop_last());
    if i < templates.len() - 1 {
        lemma_templates_steps(root, templates.drop_last(), i);
        assert(templates.drop_last()[i] == templates[i]);
    }
}

proof fn lemma_forms_steps(
    root: Seq<Seq<char>>,
    root_label: Seq<char>,
    forms: Seq<FormInfo>,
    i: int,
)
    requires
        0 <= i < forms.len(),
    ensures
        ({
            let f = forms[i];
            let two = form_steps(root, root_label, f.name@, f.uuid@, handler_views(f.handlers@));
            let all = forms_steps(root, root_label, forms);
            all[2 * i] == two[0] && all[2 * i + 1] == two[1]
        }),
    decreases forms.len(),
{
    lemma_forms_len(root, root_label, forms);
    lemma_forms_len(root, root_label, forms.drop_last());
    if i < forms.len() - 1 {
        lemma_forms_steps(root, root_label, forms.drop_last(), i);
        assert(forms.drop_last()[i] == forms[i]);
    }
}

/// Each form is laid out: its description under `Forms`, and its content with
/// all its handlers, which are counted.
#[verifier::rlimit(40)]
pub proof fn every_form_is_laid_out(
    kind: ObjKind,
    h: HeaderView,
    dir_label: Seq<char>,
    root_label: Seq<char>,
    templates: Seq<TemplateInfo>,
    forms: Seq<FormInfo>,
    i: int,
)
    requires
        0 <= i < forms.len(),
    ensures
        ({
            let steps = steps_of(kind, h, dir_label, root_label, templates, forms);
            let root = match kind {
                ObjKind::Report => seq!["Reports"@, h.name],
                ObjKind::DataProcessor => seq!["DataProcessors"@, h.name],
            };
            let f = forms[i];
            let at = 2 + 2 * templates.len() + 2 * i;
            &&& steps.len() == 2 + 2 * templates.len() + 2 * forms.len()
            &&& steps[at] matches StepView::Write { path, body, gain, .. } && path == root
                + seq!["Forms"@, f.name@ + ".xml"@] && body == form_view(f.name@, f.uuid@) && gain
                == Gain::Description
            &&& steps[at + 1] matches StepView::Write { path, body, gain, .. } && path == root
                + seq!["Forms"@, f.name@, "Ext"@, "Form.xml"@] && body == form_ext_view(
                handler_views(f.handlers@),
            ) && gain == Gain::Form(f.handlers@.len() as usize)
        }),
{
    let root = seq![kind.dir(), h.name];
    lemma_templates_len(root, templates);
    lemma_forms_len(root, root_label, forms);
    lemma_forms_steps(root, root_label, forms, i);
}

/// An object is laid out: the description of the configuration that it makes up
/// and its own, under the directory of its kind, with the names of all its
/// templates and forms.
pub proof fn object_is_laid_out(
    kind: ObjKind,
    h: HeaderView,
    dir_label: Seq<char>,
    root_label: Seq<char>,
    templates: Seq<TemplateInfo>,
    forms: Seq<FormInfo>,
)
    ensures
        ({
            let steps = steps_of(kind, h, dir_label, root_label, templates, forms);
            let dir = match kind {
                ObjKind::Report => "Reports"@,
                ObjKind::DataProcessor => "DataProcessors"@,
            };
            let ts = templates.map_values(|t: TemplateInfo| t.header.name@);
            let fs = forms.map_values(|f: FormInfo| f.name@);
            &&& steps[0] matches StepView::Write { path, body, .. } && path
                == seq!["Configuration.xml"@] && body == configuration_view(h)
            &&& steps[1] matches StepView::Write { path, body, .. } && path == seq![dir, h.name]
                + seq![h.name + ".xml"@] && body == object_view(kind, h, ts, fs)
        }),
{
    assert(template_names(templates) =~= templates.map_values(|t: TemplateInfo| t.header.name@));
    assert(form_names(forms) =~= forms.map_values(|f: FormInfo| f.name@));
}

/// A schema that was written adds one to the schemas, a form one to the forms
/// and all its handlers to the handlers.
pub proof fn gains_are_counted(s: LayoutStats, step: StepView, ok: bool)
    requires
        s.schemas < usize::MAX,
        s.forms < usize::MAX,
        step matches StepView::Write { gain, .. } && (gain matches Gain::Form(n) ==> s.handlers + n
            <= usize::MAX),
        ok,
    ensures
        ({
            let after = counted(s, step, ok);
            let gain = step->gain;
            &&& after.schemas == s.schemas + if gain == Gain::Schema {
                1int
            } else {
                0
            }
            &&& after.forms == s.forms + if gain is Form {
                1int
            } else {
                0
            }
            &&& after.handlers == s.handlers + match gain {
                Gain::Form(n) => n as int,
                _ => 0,
            }
        }),
{
}

/// The description of an object is read from its fields; it needs a name and an
/// identifier.
pub proof fn fields_of_an_object_are_read(t: Tree)
    ensures
        match header_of(t) {
            Some(h) => {
                &&& json::text_field(t, "name"@) == Some(h.name) && h.name.len() > 0
                &&& json::text_field(t, "uuid"@) == Some(h.uuid) && h.uuid.len() > 0
                &&& match json::text_field(t, "comment"@) {
                    Some(c) => h.comment == c,
                    None => h.comment.len() == 0,
                }
                &&& match json::field(t, "name2"@) {
                    Some(names) => match json::text_field(names, "ru"@) {
                        Some(s) => h.synonym == s,
                        None => h.synonym.len() == 0,
                    },
                    None => h.synonym.len() == 0,
                }
            },
            None => !(json::text_field(t, "name"@) matches Some(n) && n.len() > 0) || !(
            json::text_field(t, "uuid"@) matches Some(u) && u.len() > 0),
        },
{
}

/// A template is laid out where its type is that of a schema: it has the name of
/// its description, else of its directory, and the identifier of its other file.
pub proof fn schemas_are_told_by_their_type(
    t: Tree,
    dir_name: Seq<char>,
    uuid: Option<Seq<char>>,
)
    ensures
        match template_of(Some(t), dir_name, uuid) {
            TemplateFoundView::Other => json::text_field(t, "type"@) != Some("scheme"@),
            TemplateFoundView::Nameless => json::text_field(t, "type"@) == Some("scheme"@) && (
            uuid is None || uuid->Some_0.len() == 0 || match json::text_field(t, "name"@) {
                Some(n) => n.len() == 0,
                None => dir_name.len() == 0,
            }),
            TemplateFoundView::Schema(h) => {
                &&& json::text_field(t, "type"@) == Some("scheme"@)
                &&& match json::text_field(t, "name"@) {
                    Some(n) => h.name == n,
                    None => h.name == dir_name,
                }
                &&& h.name.len() > 0 && h.uuid.len() > 0
                &&& uuid == Some(h.uuid)
            },
        },
        template_of(None, dir_name, uuid) is Other,
{
}

/// Handlers that are known stay when others are read.
pub open spec fn keeps(
    a: Seq<(Seq<char>, Seq<char>, Seq<char>)>,
    b: Seq<(Seq<char>, Seq<char>, Seq<char>)>,
) -> bool {
    a.len() <= b.len() && b.take(a.len() as int) == a
}

proof fn lemma_keeps(
    a: Seq<(Seq<char>, Seq<char>, Seq<char>)>,
    b: Seq<(Seq<char>, Seq<char>, Seq<char>)>,
    c: Seq<(Seq<char>, Seq<char>, Seq<char>)>,
)
    requires
        keeps(a, b),
        keeps(b, c),
    ensures
        keeps(a, c),
{
    assert(c.take(a.len() as int) =~= b.take(a.len() as int));
}

proof fn lemma_keeps_handled(
    a: Seq<(Seq<char>, Seq<char>, Seq<char>)>,
    b: Seq<(Seq<char>, Seq<char>, Seq<char>)>,
    owner: Seq<char>,
    event: Seq<char>,
)
    requires
        keeps(a, b),
        is_handled(a, owner, event),
    ensures
        is_handled(b, owner, event),
{
    let i = choose|i: int| 0 <= i < a.len() && (#[trigger] a[i]).0 == owner && a[i].1 == event;
    assert(b.take(a.len() as int)[i] == b[i]);
}

proof fn lemma_pairs_keep(
    out: Seq<(Seq<char>, Seq<char>, Seq<char>)>,
    texts: Seq<Seq<char>>,
    n: int,
    owner: Seq<char>,
    names: Map<Seq<char>, Seq<char>>,
)
    ensures
        keeps(out, with_pairs(out, texts, n, owner, names)),
    decreases n,
{
    let all = with_pairs(out, texts, n, owner, names);
    if n > 0 {
        lemma_pairs_keep(out, texts, n - 1, owner, names);
        let head = with_pairs(out, texts, n - 1, owner, names);
        assert(all.take(head.len() as int) =~= head);
        lemma_keeps(out, head, all);
    } else {
        assert(all.take(out.len() as int) =~= out);
    }
}

proof fn lemma_owner_keeps(
    out: Seq<(Seq<char>, Seq<char>, Seq<char>)>,
    raw: Option<Tree>,
    owner: Seq<char>,
    names: Map<Seq<char>, Seq<char>>,
)
    ensures
        keeps(out, with_owner(out, raw, owner, names)),
{
    assert(out.take(out.len() as int) =~= out);
    if let Some(t) = raw {
        lemma_pairs_keep(out, flat(t), flat(t).len() - 1, owner, names);
    }
}

proof fn lemma_data_keeps(
    out: Seq<(Seq<char>, Seq<char>, Seq<char>)>,
    fields: Seq<(Seq<char>, Tree)>,
    names: Map<Seq<char>, Seq<char>>,
)
    ensures
        keeps(out, with_data(out, fields, names)),
    decreases fields.len(),
{
    if fields.len() == 0 {
        assert(out.take(out.len() as int) =~= out);
    } else {
        lemma_data_keeps(out, fields.drop_last(), names);
        let head = with_data(out, fields.drop_last(), names);
        let raw = json::field(fields.last().1, "raw"@);
        let owner = last_name(fields.last().0);
        lemma_owner_keeps(head, raw, owner, names);
        lemma_keeps(out, head, with_owner(head, raw, owner, names));
    }
}

proof fn lemma_entry_keeps(
    out: Seq<(Seq<char>, Seq<char>, Seq<char>)>,
    entry: Tree,
    names: Map<Seq<char>, Seq<char>>,
)
    ensures
        keeps(out, with_entry(out, entry, names)),
    decreases entry, 1nat,
{
    assert(out.take(out.len() as int) =~= out);
    let own = match json::text_field(entry, "name"@) {
        Some(name) => with_owner(out, json::field(entry, "raw"@), last_name(name), names),
        None => out,
    };
    if let Some(name) = json::text_field(entry, "name"@) {
        lemma_owner_keeps(out, json::field(entry, "raw"@), last_name(name), names);
    }
    if let Tree::Object(fields) = entry {
        lemma_children_keep(own, fields, names);
        lemma_keeps(out, own, with_children(own, fields, names));
    }
}

proof fn lemma_children_keep(
    out: Seq<(Seq<char>, Seq<char>, Seq<char>)>,
    fields: Seq<(Seq<char>, Tree)>,
    names: Map<Seq<char>, Seq<char>>,
)
    ensures
        keeps(out, with_children(out, fields, names)),
    decreases fields, 0nat,
{
    assert(out.take(out.len() as int) =~= out);
    if fields.len() > 0 {
        if fields.last().0 == "child"@ {
            if let Tree::List(items) = fields.last().1 {
                lemma_entries_keep(out, items, names);
            }
        } else {
            lemma_children_keep(out, fields.drop_last(), names);
        }
    }
}

proof fn lemma_entries_keep(
    out: Seq<(Seq<char>, Seq<char>, Seq<char>)>,
    items: Seq<Tree>,
    names: Map<Seq<char>, Seq<char>>,
)
    ensures
        keeps(out, with_entries(out, items, names)),
    decreases items, 0nat,
{
    assert(out.take(out.len() as int) =~= out);
    if items.len() > 0 {
        lemma_entries_keep(out, items.drop_last(), names);
        let head = with_entries(out, items.drop_last(), names);
        lemma_entry_keeps(head, items.last(), names);
        lemma_keeps(out, head, with_entry(head, items.last(), names));
    }
}

proof fn lemma_list_keeps(
    out: Seq<(Seq<char>, Seq<char>, Seq<char>)>,
    list: Option<Tree>,
    names: Map<Seq<char>, Seq<char>>,
)
    ensures
        keeps(out, with_list(out, list, names)),
{
    assert(out.take(out.len() as int) =~= out);
    if let Some(Tree::List(items)) = list {
        lemma_entries_keep(out, items, names);
    }
}

/// Among the texts of an owner, at the given place, stand the identifier of an
/// event and, in quotes, the name of its handler.
pub open spec fn event_stands_at(
    texts: Seq<Seq<char>>,
    k: int,
    id: Seq<char>,
    handler: Seq<char>,
) -> bool {
    &&& 0 <= k < texts.len() - 1
    &&& text::trim(texts[k]) == id
    &&& text::is_uuid(id)
    &&& text::trim(texts[k + 1]) == seq!['"'] + handler + seq!['"']
    &&& handler.len() > 0
}

proof fn lemma_pair_is_handled(
    out: Seq<(Seq<char>, Seq<char>, Seq<char>)>,
    texts: Seq<Seq<char>>,
    n: int,
    owner: Seq<char>,
    names: Map<Seq<char>, Seq<char>>,
    k: int,
    id: Seq<char>,
    handler: Seq<char>,
    event: Seq<char>,
)
    requires
        event_stands_at(texts, k, id, handler),
        k < n,
        event_of(names, text::lowered(id), owner, handler) == Some(event),
    ensures
        is_handled(with_pairs(out, texts, n, owner, names), owner, event),
    decreases n,
{
    let all = with_pairs(out, texts, n, owner, names);
    let head = with_pairs(out, texts, n - 1, owner, names);
    if k < n - 1 {
        lemma_pair_is_handled(out, texts, n - 1, owner, names, k, id, handler, event);
        assert(all.take(head.len() as int) =~= head);
        lemma_keeps_handled(head, all, owner, event);
    } else {
        let q = seq!['"'] + handler + seq!['"'];
        assert(q.subrange(1, q.len() - 1) =~= handler);
        assert(q.last() == '"');
        assert(unquoted(q) == Some(handler));
        assert(event_pair(texts[n - 1], texts[n]) == Some((text::lowered(id), handler)));
        if !is_handled(head, owner, event) {
            assert(all[head.len() as int] == (owner, event, handler));
        }
    }
}

/// Every event of an element with a handler is handled: an element of the map
/// of a form is named by the end of its path, its events stand among the texts of
/// its `raw` field, each identifier before the name of the handler in quotes. An
/// event is named by the table, or by what the name of the handler has behind
/// that of the element.
pub proof fn events_of_elements_are_handled(
    elem: Tree,
    names: Map<Seq<char>, Seq<char>>,
    fields: Seq<(Seq<char>, Tree)>,
    j: int,
    raw: Tree,
    k: int,
    id: Seq<char>,
    handler: Seq<char>,
    event: Seq<char>,
)
    requires
        json::field(elem, "data"@) == Some(Tree::Object(fields)),
        0 <= j < fields.len(),
        json::field(fields[j].1, "raw"@) == Some(raw),
        last_name(fields[j].0).len() > 0,
        event_stands_at(flat(raw), k, id, handler),
        match form_events::lookup(names, text::lowered(id)) {
            Some(e) => e == event,
            None => handler == last_name(fields[j].0) + event && event.len() > 0
                && !form_events::has_space(event),
        },
    ensures
        is_handled(handlers_of(elem, names), last_name(fields[j].0), event),
{
    let none = Seq::<(Seq<char>, Seq<char>, Seq<char>)>::empty();
    let owner = last_name(fields[j].0);
    let data = with_data(none, fields, names);
    if form_events::lookup(names, text::lowered(id)) is None {
        let n = owner.len() as int;
        assert(handler.take(n) =~= owner);
        assert(handler.skip(n) =~= event);
    }
    lemma_data_is_handled(none, fields, names, j, raw, k, id, handler, event);
    let props = with_list(data, json::field(elem, "props"@), names);
    lemma_list_keeps(data, json::field(elem, "props"@), names);
    lemma_keeps_handled(data, props, owner, event);
    let all = with_list(props, json::field(elem, "commands"@), names);
    lemma_list_keeps(props, json::field(elem, "commands"@), names);
    lemma_keeps_handled(props, all, owner, event);
}

proof fn lemma_data_is_handled(
    out: Seq<(Seq<char>, Seq<char>, Seq<char>)>,
    fields: Seq<(Seq<char>, Tree)>,
    names: Map<Seq<char>, Seq<char>>,
    j: int,
    raw: Tree,
    k: int,
    id: Seq<char>,
    handler: Seq<char>,
    event: Seq<char>,
)
    requires
        0 <= j < fields.len(),
        json::field(fields[j].1, "raw"@) == Some(raw),
        last_name(fields[j].0).len() > 0,
        event_stands_at(flat(raw), k, id, handler),
        event_of(names, text::lowered(id), last_name(fields[j].0), handler) == Some(event),
    ensures
        is_handled(with_data(out, fields, names), last_name(fields[j].0), event),
    decreases fields.len(),
{
    let rest = fields.drop_last();
    let head = with_data(out, rest, names);
    let owner = last_name(fields[j].0);
    let n = fields.len() - 1;
    if j < n {
        assert(rest[j] == fields[j]);
        lemma_data_is_handled(out, rest, names, j, raw, k, id, handler, event);
        let r = json::field(fields.last().1, "raw"@);
        let o = last_name(fields.last().0);
        lemma_owner_keeps(head, r, o, names);
        lemma_keeps_handled(head, with_owner(head, r, o, names), owner, event);
    } else {
        lemma_pair_is_handled(
            head,
            flat(raw),
            flat(raw).len() - 1,
            owner,
            names,
            k,
            id,
            handler,
            event,
        );
    }
}

proof fn lemma_entries_are_handled(
    out: Seq<(Seq<char>, Seq<char>, Seq<char>)>,
    items: Seq<Tree>,
    names: Map<Seq<char>, Seq<char>>,
    j: int,
    name: Seq<char>,
    raw: Tree,
    k: int,
    id: Seq<char>,
    handler: Seq<char>,
    event: Seq<char>,
)
    requires
        0 <= j < items.len(),
        json::text_field(items[j], "name"@) == Some(name),
        json::field(items[j], "raw"@) == Some(raw),
        last_name(name).len() > 0,
        event_stands_at(flat(raw), k, id, handler),
        event_of(names, text::lowered(id), last_name(name), handler) == Some(event),
    ensures
        is_handled(with_entries(out, items, names), last_name(name), event),
    decreases items.len(),
{
    let rest = items.drop_last();
    let head = with_entries(out, rest, names);
    let owner = last_name(name);
    let n = items.len() - 1;
    if j < n {
        assert(rest[j] == items[j]);
        lemma_entries_are_handled(out, rest, names, j, name, raw, k, id, handler, event);
        lemma_entry_keeps(head, items.last(), names);
        lemma_keeps_handled(head, with_entry(head, items.last(), names), owner, event);
    } else {
        let own = with_owner(head, Some(raw), owner, names);
        lemma_pair_is_handled(
            head,
            flat(raw),
            flat(raw).len() - 1,
            owner,
            names,
            k,
            id,
            handler,
            event,
        );
        assert(with_entries(out, items, names) == with_entry(head, items[j], names));
        if let Tree::Object(fields) = items[j] {
            lemma_children_keep(own, fields, names);
            lemma_keeps_handled(own, with_children(own, fields, names), owner, event);
            assert(with_entry(head, items[j], names) == with_children(own, fields, names));
        } else {
            assert(with_entry(head, items[j], names) == own);
        }
    }
}

/// Every event of a property or a command of a form with a handler is handled,
/// in the same way as those of its elements.
pub proof fn events_of_properties_and_commands_are_handled(
    elem: Tree,
    names: Map<Seq<char>, Seq<char>>,
    commands: bool,
    items: Seq<Tree>,
    j: int,
    name: Seq<char>,
    raw: Tree,
    k: int,
    id: Seq<char>,
    handler: Seq<char>,
    event: Seq<char>,
)
    requires
        json::field(
            elem,
            if commands {
                "commands"@
            } else {
                "props"@
            },
        ) == Some(Tree::List(items)),
        0 <= j < items.len(),
        json::text_field(items[j], "name"@) == Some(name),
        json::field(items[j], "raw"@) == Some(raw),
        last_name(name).len() > 0,
        event_stands_at(flat(raw), k, id, handler),
        match form_events::lookup(names, text::lowered(id)) {
            Some(e) => e == event,
            None => handler == last_name(name) + event && event.len() > 0
                && !form_events::has_space(event),
        },
    ensures
        is_handled(handlers_of(elem, names), last_name(name), event),
{
    let none = Seq::<(Seq<char>, Seq<char>, Seq<char>)>::empty();
    let owner = last_name(name);
    if form_events::lookup(names, text::lowered(id)) is None {
        let n = owner.len() as int;
        assert(handler.take(n) =~= owner);
        assert(handler.skip(n) =~= event);
    }
    let data = match json::field(elem, "data"@) {
        Some(Tree::Object(fields)) => with_data(none, fields, names),
        _ => none,
    };
    let props = with_list(data, json::field(elem, "props"@), names);
    let all = with_list(props, json::field(elem, "commands"@), names);
    if commands {
        lemma_entries_are_handled(props, items, names, j, name, raw, k, id, handler, event);
    } else {
        lemma_entries_are_handled(data, items, names, j, name, raw, k, id, handler, event);
        lemma_list_keeps(props, json::field(elem, "commands"@), names);
        lemma_keeps_handled(props, all, owner, event);
    }
}

/// An entry may have further entries in its field of children; these are read
/// behind it.
pub proof fn children_are_read(
    out: Seq<(Seq<char>, Seq<char>, Seq<char>)>,
    fields: Seq<(Seq<char>, Tree)>,
    children: Seq<Tree>,
    names: Map<Seq<char>, Seq<char>>,
)
    requires
        json::field_in(fields, "child"@) == Some(Tree::List(children)),
        json::text_field(Tree::Object(fields), "name"@) is None,
    ensures
        with_entry(out, Tree::Object(fields), names) == with_entries(out, children, names),
{
    lemma_children_are_read(out, fields, children, names);
}

proof fn lemma_children_are_read(
    out: Seq<(Seq<char>, Seq<char>, Seq<char>)>,
    fields: Seq<(Seq<char>, Tree)>,
    children: Seq<Tree>,
    names: Map<Seq<char>, Seq<char>>,
)
    requires
        json::field_in(fields, "child"@) == Some(Tree::List(children)),
    ensures
        with_children(out, fields, names) == with_entries(out, children, names),
    decreases fields.len(),
{
    if fields.len() > 0 && fields.last().0 != "child"@ {
        lemma_children_are_read(out, fields.drop_last(), children, names);
    }
}

/// The texts of a value are all the texts and numbers in it, those of a list one
/// after the other.
pub proof fn texts_of_a_list_follow_each_other(items: Seq<Tree>, more: Tree, s: Seq<char>)
    ensures
        flat(Tree::Text(s)) == seq![s],
        flat(Tree::Number(s)) == seq![s],
        flat(Tree::List(items.push(more))) == flat(Tree::List(items)) + flat(more),
        flat(Tree::List(Seq::empty())).len() == 0,
{
    assert(items.push(more).drop_last() =~= items);
}

/// The last part of a path of names is what stands behind its last stroke.
pub proof fn name_is_the_end_of_a_path(dir: Seq<char>, name: Seq<char>)
    requires
        !name.contains('/'),
    ensures
        last_name(dir + "/"@ + name) == name,
        last_name(name) == name,
{
    reveal_strlit("/");
    let s = dir + "/"@ + name;
    let k = dir.len() as int;
    assert forall|i: int| k < i implies !#[trigger] text::occurs_at(s, "/"@, i) by {
        if text::occurs_at(s, "/"@, i) {
            assert(s.subrange(i, i + 1)[0] == s[i]);
            assert(name[i - k - 1] == '/');
            assert(name.contains('/'));
        }
    }
    assert(s.subrange(k, k + 1) =~= "/"@);
    assert(text::occurs_at(s, "/"@, k));
    text::last_place_is_found(s, "/"@, k);
    assert(s.skip(k + 1) =~= name);
    assert forall|i: int| !#[trigger] text::occurs_at(name, "/"@, i) by {
        if text::occurs_at(name, "/"@, i) {
            assert(name.subrange(i, i + 1)[0] == name[i]);
            assert(name.contains('/'));
        }
    }
    text::last_place_is_found(name, "/"@, -1);
}

/// Handlers that are known stay, in their places: the first handler of an event
/// counts.
pub proof fn first_handler_of_an_event_counts(
    out: Seq<(Seq<char>, Seq<char>, Seq<char>)>,
    items: Seq<Tree>,
    names: Map<Seq<char>, Seq<char>>,
    i: int,
)
    requires
        0 <= i < out.len(),
    ensures
        i < with_entries(out, items, names).len(),
        with_entries(out, items, names)[i] == out[i],
{
    lemma_entries_keep(out, items, names);
    let all = with_entries(out, items, names);
    assert(all.take(out.len() as int)[i] == all[i]);
}

/// Every handler that is read comes from an event of its owner that stands among
/// the texts, and is its name in quotes.
pub proof fn handlers_come_from_events(
    out: Seq<(Seq<char>, Seq<char>, Seq<char>)>,
    texts: Seq<Seq<char>>,
    n: int,
    owner: Seq<char>,
    names: Map<Seq<char>, Seq<char>>,
    i: int,
) -> (k: int)
    requires
        n < texts.len(),
        out.len() <= i < with_pairs(out, texts, n, owner, names).len(),
    ensures
        ({
            let h = with_pairs(out, texts, n, owner, names)[i];
            let id = text::trim(texts[k]);
            &&& 0 <= k < n
            &&& h.0 == owner
            &&& text::is_uuid(id)
            &&& text::trim(texts[k + 1]) == seq!['"'] + h.2 + seq!['"']
            &&& match form_events::lookup(names, text::lowered(id)) {
                Some(e) => h.1 == e,
                None => h.2 == owner + h.1 && h.1.len() > 0,
            }
        }),
    decreases n,
{
    let all = with_pairs(out, texts, n, owner, names);
    let head = with_pairs(out, texts, n - 1, owner, names);
    if n <= 0 {
        0
    } else if i < head.len() {
        let k = handlers_come_from_events(out, texts, n - 1, owner, names, i);
        assert(all[i] == head[i]);
        k
    } else {
        let (id, handler) = event_pair(texts[n - 1], texts[n])->0;
        let q = text::trim(texts[n]);
        assert(q =~= seq!['"'] + q.subrange(1, q.len() - 1) + seq!['"']);
        if form_events::lookup(names, id) is None {
            let m = owner.len() as int;
            assert(handler =~= handler.take(m) + handler.skip(m));
        }
        n - 1
    }
}

/// A form has the handlers of its elements, and none where these are not known; an
/// identifier is a text that is not empty.
pub proof fn forms_have_the_handlers_of_their_elements(
    elem: Tree,
    names: Map<Seq<char>, Seq<char>>,
)
    ensures
        form_handlers(Some(elem), names) == handlers_of(elem, names),
        form_handlers(None, names).len() == 0,
        uuid_in(None) is None,
        match json::text_field(elem, "uuid"@) {
            Some(s) => uuid_in(Some(elem)) == if s.len() > 0 {
                Some(s)
            } else {
                None
            },
            None => uuid_in(Some(elem)) is None,
        },
{
}

/// A step that failed is warned about with its label and the reason; only what
/// could not be described leaves out the step behind it.
pub proof fn failed_steps_are_warned_about(
    path: Seq<Seq<char>>,
    body: Seq<char>,
    label: Seq<char>,
    gain: Gain,
    e: Seq<char>,
)
    ensures
        step_warning(StepView::Write { path, body, label, gain }, Some(e)) == Some(
            "⚠ "@ + label + " — "@ + e,
        ),
        step_warning(StepView::Write { path, body, label, gain }, None) is None,
        step_warning(StepView::Warn(e), None) == Some("⚠ "@ + e),
        is_description(StepView::Write { path, body, label, gain }) <==> gain == Gain::Description,
        !is_description(StepView::Warn(e)),
{
}

/// The handlers are what they say, one by one.
pub proof fn handlers_are_taken_one_by_one(v: Seq<(String, String, String)>, i: int)
    requires
        0 <= i < v.len(),
    ensures
        handler_views(v).len() == v.len(),
        handler_views(v)[i] == (v[i].0@, v[i].1@, v[i].2@),
{
}

/// The content of a form that is written holds every handler of the form, inside
/// the element of its owner, and as many events as there are handlers.
pub proof fn form_is_written_with_every_handler(
    handlers: &Vec<(String, String, String)>,
    text: String,
    i: int,
) -> (r: (Seq<char>, Seq<char>, Seq<char>))
    requires
        call_ensures(form_ext_xml, (handlers,), text),
        0 <= i < handlers@.len(),
    ensures
        text@ == r.0 + ("<InputField name=\""@ + escaped(handlers@[i].0@)
            + "\">\r\n\t\t\t<Events>\r\n"@) + r.1 + ("<Event name=\""@ + escaped(handlers@[i].1@)
            + "\">"@ + escaped(handlers@[i].2@) + "</Event>"@) + r.2,
        count_of(r.1, "</InputField>"@) == 0,
        text::has(r.2, "</InputField>"@),
        count_of(text@, "<Event name="@) == handlers@.len(),
{
    let v = handler_views(handlers@);
    assert(v[i] == (handlers@[i].0@, handlers@[i].1@, handlers@[i].2@));
    as_many_events_as_handlers(v);
    every_handler_is_written(v, i)
}

/// The children of an object are written one for one, in their order.
pub proof fn children_are_written_in_their_order(
    tag: Seq<char>,
    names: Seq<Seq<char>>,
    more: Seq<char>,
)
    ensures
        children_xml(tag, names.push(more)) == children_xml(tag, names) + ("\t\t\t<"@ + tag + ">"@
            + escaped(more) + "</"@ + tag + ">\r\n"@),
        children_xml(tag, Seq::empty()).len() == 0,
{
    assert(names.push(more).drop_last() =~= names);
}

/// A description is that of its kind: its root bears the tag of what it describes,
/// and that of a template says that it is a schema.
#[verifier::rlimit(40)]
pub proof fn description_bears_its_tag(
    kind: ObjKind,
    h: HeaderView,
    templates: Seq<Seq<char>>,
    forms: Seq<Seq<char>>,
)
    ensures
        text::has(configuration_view(h), "<Configuration uuid=\""@ + h.uuid + "\">"@),
        text::has(template_view(h), "<Template uuid=\""@ + h.uuid + "\">"@),
        text::has(form_view(h.name, h.uuid), "<Form uuid=\""@ + h.uuid + "\">"@),
        kind == ObjKind::Report ==> text::has(
            object_view(kind, h, templates, forms),
            "<Report uuid=\""@ + h.uuid + "\">"@,
        ),
        kind == ObjKind::DataProcessor ==> text::has(
            object_view(kind, h, templates, forms),
            "<DataProcessor uuid=\""@ + h.uuid + "\">"@,
        ),
        text::has(template_view(h), "<TemplateType>DataCompositionSchema</TemplateType>"@),
{
    lemma_root_tags();
    let rest = "\t\t</Properties>\r\n"@ + description_tail("Configuration"@);
    assert(configuration_view(h) =~= titled_head("Configuration"@, h) + rest);
    lemma_titled_root("Configuration"@, h, rest, "<Configuration uuid=\""@);
    let mid = "\t\t\t<TemplateType>DataCompositionSchema</TemplateType>\r\n\t\t</Properties>\r\n"@;
    let more = mid + description_tail("Template"@);
    assert(template_view(h) =~= titled_head("Template"@, h) + more);
    lemma_titled_root("Template"@, h, more, "<Template uuid=\""@);
    let tail = "\t\t\t<FormType>Managed</FormType>\r\n\t\t</Properties>\r\n"@ + description_tail(
        "Form"@,
    );
    assert(form_view(h.name, h.uuid) =~= description_head("Form"@, h.uuid, h.name) + tail);
    lemma_root("Form"@, h.uuid, h.name, tail, "<Form uuid=\""@);
    let last = main_schema_xml(kind, h.name, templates) + "\t\t</Properties>\r\n"@
        + child_objects_xml(templates, forms) + description_tail(kind.tag());
    assert(object_view(kind, h, templates, forms) =~= titled_head(kind.tag(), h) + last);
    if kind == ObjKind::Report {
        lemma_titled_root("Report"@, h, last, "<Report uuid=\""@);
    } else {
        lemma_titled_root("DataProcessor"@, h, last, "<DataProcessor uuid=\""@);
    }
    let p = "<TemplateType>DataCompositionSchema</TemplateType>"@;
    let (a, b) = lemma_template_type();
    let head = titled_head("Template"@, h);
    assert(template_view(h) =~= (head + a) + p + (b + description_tail("Template"@)));
    text::lemma_has_part(head + a, p, b + description_tail("Template"@));
}

#[verifier::rlimit(40)]
proof fn lemma_template_type() -> (r: (Seq<char>, Seq<char>))
    ensures
        "\t\t\t<TemplateType>DataCompositionSchema</TemplateType>\r\n\t\t</Properties>\r\n"@ == r.0
            + "<TemplateType>DataCompositionSchema</TemplateType>"@ + r.1,
{
    reveal_strlit(
        "\t\t\t<TemplateType>DataCompositionSchema</TemplateType>\r\n\t\t</Properties>\r\n",
    );
    reveal_strlit("<TemplateType>DataCompositionSchema</TemplateType>");
    let mid = "\t\t\t<TemplateType>DataCompositionSchema</TemplateType>\r\n\t\t</Properties>\r\n"@;
    let p = "<TemplateType>DataCompositionSchema</TemplateType>"@;
    let a = mid.take(3);
    let b = mid.skip(3 + p.len() as int);
    assert(mid =~= a + p + b);
    (a, b)
}

#[verifier::rlimit(40)]
proof fn lemma_root_tags()
    ensures
        "<"@ + "Configuration"@ + " uuid=\""@ == "<Configuration uuid=\""@,
        "<"@ + "Template"@ + " uuid=\""@ == "<Template uuid=\""@,
        "<"@ + "Form"@ + " uuid=\""@ == "<Form uuid=\""@,
        "<"@ + "Report"@ + " uuid=\""@ == "<Report uuid=\""@,
        "<"@ + "DataProcessor"@ + " uuid=\""@ == "<DataProcessor uuid=\""@,
{
    reveal_strlit("<");
    reveal_strlit(" uuid=\"");
    reveal_strlit("Configuration");
    reveal_strlit("Template");
    reveal_strlit("Form");
    reveal_strlit("Report");
    reveal_strlit("DataProcessor");
    reveal_strlit("<Configuration uuid=\"");
    reveal_strlit("<Template uuid=\"");
    reveal_strlit("<Form uuid=\"");
    reveal_strlit("<Report uuid=\"");
    reveal_strlit("<DataProcessor uuid=\"");
    assert("<"@ + "Configuration"@ + " uuid=\""@ =~= "<Configuration uuid=\""@);
    assert("<"@ + "Template"@ + " uuid=\""@ =~= "<Template uuid=\""@);
    assert("<"@ + "Form"@ + " uuid=\""@ =~= "<Form uuid=\""@);
    assert("<"@ + "Report"@ + " uuid=\""@ =~= "<Report uuid=\""@);
    assert("<"@ + "DataProcessor"@ + " uuid=\""@ =~= "<DataProcessor uuid=\""@);
}

#[verifier::rlimit(40)]
proof fn lemma_root(
    tag: Seq<char>,
    uuid: Seq<char>,
    name: Seq<char>,
    rest: Seq<char>,
    opening: Seq<char>,
)
    requires
        "<"@ + tag + " uuid=\""@ == opening,
    ensures
        text::has(description_head(tag, uuid, name) + rest, opening + uuid + "\">"@),
{
    let x = "<?xml version=\"1.0\" encoding=\"UTF-8\"?>\r\n<MetaDataObject "@ + MD_NAMESPACES@;
    let v = " version=\"2.20\">\r\n\t<"@;
    let m = "\">\r\n\t\t<Properties>\r\n\t\t\t<Name>"@;
    reveal_strlit(" version=\"2.20\">\r\n\t<");
    reveal_strlit("<");
    reveal_strlit("\">\r\n\t\t<Properties>\r\n\t\t\t<Name>");
    reveal_strlit("\">");
    let v0 = v.take(v.len() - 1);
    let m1 = m.skip(2);
    assert(v =~= v0 + "<"@);
    assert(m =~= "\">"@ + m1);
    let back = m1 + escaped(name) + "</Name>\r\n"@ + rest;
    assert(description_head(tag, uuid, name) + rest =~= (x + v0) + (("<"@ + tag + " uuid=\""@)
        + uuid + "\">"@) + back);
    text::lemma_has_part(x + v0, opening + uuid + "\">"@, back);
}

proof fn lemma_titled_root(tag: Seq<char>, h: HeaderView, rest: Seq<char>, opening: Seq<char>)
    requires
        "<"@ + tag + " uuid=\""@ == opening,
    ensures
        text::has(titled_head(tag, h) + rest, opening + h.uuid + "\">"@),
{
    let tail = synonym_xml(h.synonym) + comment_xml(h.comment) + rest;
    assert(titled_head(tag, h) + rest =~= description_head(tag, h.uuid, h.name) + tail);
    lemma_root(tag, h.uuid, h.name, tail, opening);
}

/// What could not be written is named: the template by its directory, the form by
/// its name.
pub proof fn steps_are_labelled(
    root: Seq<Seq<char>>,
    root_label: Seq<char>,
    h: HeaderView,
    dir: Seq<char>,
    body: Seq<char>,
    name: Seq<char>,
    uuid: Seq<char>,
    handlers: Seq<(Seq<char>, Seq<char>, Seq<char>)>,
)
    ensures
        template_steps(root, h, dir, Ok(body))[0]->label == dir + ": паспорт макета"@,
        template_steps(root, h, dir, Ok(body))[1]->label == dir + ": Ext/Template.xml"@,
        form_steps(root, root_label, name, uuid, handlers)[0]->label == root_label
            + ": паспорт формы "@ + name,
        form_steps(root, root_label, name, uuid, handlers)[1]->label == root_label + ": форма "@
            + name,
{
}

/// What stands between quotes is read without them, and only a text in quotes is.
pub proof fn quotes_are_taken_off(s: Seq<char>, t: Seq<char>)
    ensures
        unquoted(seq!['"'] + s + seq!['"']) == Some(s),
        t.len() < 2 || t[0] != '"' || t.last() != '"' ==> unquoted(t) is None,
{
    let q = seq!['"'] + s + seq!['"'];
    assert(q.subrange(1, q.len() - 1) =~= s);
    assert(q.last() == '"');
}

} // verus!
