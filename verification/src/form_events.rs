//! The names of the events of managed forms by their identifiers: a built-in
//! table, which a file can extend and override.

use vstd::prelude::*;

use crate::json::{self, Json, Tree};
use crate::strmap::{string_values, StrMap};
use crate::text;

verus! {

/// The built-in table: identifiers of events and their names. One name can
/// stand for several events, those of different kinds of elements.
pub const BUILTIN_FORM_EVENTS: [(&'static str, &'static str); 29] = [
    ("de65638d-a806-4a76-bc10-f62bbc86e0e7", "AfterDeleteRow"),
    ("178a97c4-0ffe-4fcc-93e6-505369939da5", "AutoComplete"),
    ("2391e7b8-7235-45d7-ab7e-6ff3dc086396", "BeforeAddRow"),
    ("2ccfdec5-583d-4eca-8319-e55de492665a", "BeforeDeleteRow"),
    ("4d88756d-bad4-4fde-92e1-c1f1402ac6b2", "BeforeEditEnd"),
    ("ab930362-ff94-4dcb-ad16-188805d23e3c", "BeforeRowChange"),
    ("8bfdb5eb-62dc-4851-8a2c-e983526356bf", "ChoiceProcessing"),
    ("f72043b8-2d79-414e-bc4e-3972fe9dbca1", "ChoiceProcessing"),
    ("b50dc41b-c15a-4ebe-a17f-d01e51c47de6", "Clearing"),
    ("11707a99-4eb9-4373-bc8c-84891483a034", "Click"),
    ("9874537f-454c-40ae-83e9-3b9cefbc6d08", "Click"),
    ("eba5f295-c611-4dd9-84b5-22911ad60c53", "Click"),
    ("53325f0c-b112-4c44-ab12-5d1ee0b1f07b", "DocumentComplete"),
    ("8ad48496-8d0b-4f6c-ae48-99d95227884b", "Drag"),
    ("0d644ff6-443b-4390-86fa-7f9105e42711", "DragCheck"),
    ("cb286ab3-3a1c-40d2-a232-6e64f624ccec", "DragEnd"),
    ("6d4d6747-a823-4f61-ab31-a426572f2c6c", "DragStart"),
    ("f228b12f-d892-4925-b338-695617357b32", "OnActivateCell"),
    ("60edb81d-887b-478e-94ee-7fef2b13393d", "OnActivateRow"),
    ("fe115cc8-9e33-4684-a166-bd5136fe7a9f", "OnChange"),
    ("da8dfb86-c5d1-4e35-a8a4-01b167a60ad3", "OnClick"),
    ("526c501f-ed3f-4db4-8731-fd0324707501", "OnCurrentPageChange"),
    ("01d80ddd-dce5-4db3-beb5-f63c97cb05b9", "OnEditEnd"),
    ("97365900-eadf-4dfd-a9aa-fbb9ecabd079", "OnGetDataAtServer"),
    ("b3c10170-c5ff-4cba-b537-679e1c872b45", "OnStartEdit"),
    ("ac5a9c5a-5f1d-4fc5-b88c-a187038c16d1", "Opening"),
    ("1282f000-23b6-4887-87f4-9e8e79db3d32", "Selection"),
    ("1960479b-4d89-4eba-8b39-0aa802020558", "StartChoice"),
    ("d710ea07-5c96-4c43-ab6e-e138d3653780", "URLProcessing"),
];

/// The identifier and name of each built-in event.
pub open spec fn builtin_events() -> Seq<(Seq<char>, Seq<char>)> {
    BUILTIN_FORM_EVENTS@.map_values(|p: (&'static str, &'static str)| (p.0@, p.1@))
}

/// The names of events by their identifiers, in which case does not matter:
/// they are kept in lower case.
#[derive(Debug)]
pub struct FormEventTable {
    pub map: StrMap<String>,
}

/// What came of merging a file into a table.
#[derive(Debug, Clone, Copy, PartialEq, Eq, Structural)]
pub struct MergeStats {
    /// How many records the file has.
    pub read: usize,
    /// How many were added.
    pub added: usize,
    /// How many took the place of others.
    pub overridden: usize,
    /// How many were no good.
    pub rejected: usize,
}

impl Default for MergeStats {
    fn default() -> (r: Self)
        ensures
            r == (MergeStats { read: 0, added: 0, overridden: 0, rejected: 0 }),
    {
        MergeStats { read: 0, added: 0, overridden: 0, rejected: 0 }
    }
}

/// The table of the given events; the last one of an identifier counts.
pub open spec fn table_of(events: Seq<(Seq<char>, Seq<char>)>) -> Map<Seq<char>, Seq<char>>
    decreases events.len(),
{
    if events.len() == 0 {
        Map::empty()
    } else {
        table_of(events.drop_last()).insert(text::lowered(events.last().0), events.last().1)
    }
}

/// Why a record is no good, if it is not.
pub open spec fn rejection(id: Seq<char>, raw: Tree) -> Option<Seq<char>> {
    match raw {
        Tree::Text(name) => if !text::is_uuid(text::trim(id)) {
            Some("идентификатор не uuid вида 8-4-4-4-12"@)
        } else if text::trim(name).len() == 0 {
            Some("имя пустое"@)
        } else if has_space(text::trim(name)) {
            Some("имя содержит пробелы"@)
        } else {
            None
        },
        _ => Some("значение не строка"@),
    }
}

/// The text holds white space.
pub open spec fn has_space(s: Seq<char>) -> bool {
    exists|i: int| 0 <= i < s.len() && text::is_space(#[trigger] s[i])
}

/// The key of a record in the table.
pub open spec fn record_key(id: Seq<char>) -> Seq<char> {
    text::lowered(text::trim(id))
}

/// The name that a record gives.
pub open spec fn record_name(raw: Tree) -> Seq<char> {
    match raw {
        Tree::Text(name) => text::trim(name),
        _ => Seq::empty(),
    }
}

/// The table after merging records.
pub open spec fn merged(
    m: Map<Seq<char>, Seq<char>>,
    records: Seq<(Seq<char>, Tree)>,
) -> Map<Seq<char>, Seq<char>>
    decreases records.len(),
{
    if records.len() == 0 {
        m
    } else {
        let (id, raw) = records.last();
        let head = merged(m, records.drop_last());
        if rejection(id, raw) is Some {
            head
        } else {
            head.insert(record_key(id), record_name(raw))
        }
    }
}

/// How many records are no good.
pub open spec fn rejected_count(records: Seq<(Seq<char>, Tree)>) -> nat
    decreases records.len(),
{
    if records.len() == 0 {
        0
    } else {
        rejected_count(records.drop_last()) + if rejection(
            records.last().0,
            records.last().1,
        ) is Some {
            1nat
        } else {
            0
        }
    }
}

/// How many good records have an identifier that the table knows already
/// (`known`) or does not know.
pub open spec fn merged_count(
    m: Map<Seq<char>, Seq<char>>,
    records: Seq<(Seq<char>, Tree)>,
    known: bool,
) -> nat
    decreases records.len(),
{
    if records.len() == 0 {
        0
    } else {
        let (id, raw) = records.last();
        let head = records.drop_last();
        merged_count(m, head, known) + if rejection(id, raw) is None && merged(
            m,
            head,
        ).dom().contains(record_key(id)) == known {
            1nat
        } else {
            0
        }
    }
}

/// The counts are those of merging the records into the table.
pub open spec fn stats_of(
    s: MergeStats,
    m: Map<Seq<char>, Seq<char>>,
    records: Seq<(Seq<char>, Tree)>,
) -> bool {
    &&& s.read == records.len()
    &&& s.added == merged_count(m, records, false)
    &&& s.overridden == merged_count(m, records, true)
    &&& s.rejected == rejected_count(records)
}

/// The warnings about records that are no good.
pub open spec fn warnings(records: Seq<(Seq<char>, Tree)>, label: Seq<char>) -> Seq<Seq<char>>
    decreases records.len(),
{
    if records.len() == 0 {
        Seq::empty()
    } else {
        let (id, raw) = records.last();
        let head = warnings(records.drop_last(), label);
        match rejection(id, raw) {
            Some(reason) => head.push(
                "⚠ formEventsPath ("@ + label + "): запись '"@ + id + "' отброшена — "@ + reason,
            ),
            None => head,
        }
    }
}

/// The value of a key of a map.
pub open spec fn lookup(m: Map<Seq<char>, Seq<char>>, k: Seq<char>) -> Option<Seq<char>> {
    if m.dom().contains(k) {
        Some(m[k])
    } else {
        None
    }
}

/// The view of an optional text.
pub open spec fn opt_str(o: Option<&str>) -> Option<Seq<char>> {
    match o {
        Some(s) => Some(s@),
        None => None,
    }
}

/// Whether the text is an identifier of the form 8-4-4-4-12.
pub fn is_uuid_like(s: &str) -> (r: bool)
    ensures
        r == text::is_uuid(s@),
{
    let v = text::chars_of(s);
    text::uuid_chars(&v)
}

/// Whether the text holds white space.
pub fn contains_space(s: &str) -> (r: bool)
    ensures
        r == has_space(s@),
{
    let v = text::chars_of(s);
    for i in 0..v.len()
        invariant
            v@ == s@,
            forall|k: int| 0 <= k < i ==> !text::is_space(#[trigger] v@[k]),
    {
        if text::is_white(v[i]) {
            assert(text::is_space(s@[i as int]));
            return true;
        }
    }
    false
}

/// Why a record is no good, if it is not.
fn record_fault(id: &str, raw: &Json) -> (r: Option<&'static str>)
    ensures
        opt_str(r) == rejection(id@, raw@),
{
    match raw {
        Json::Text(name) => {
            let name = text::trimmed(name);
            if !is_uuid_like(&text::trimmed(id)) {
                Some("идентификатор не uuid вида 8-4-4-4-12")
            } else if name.as_str().is_empty() {
                Some("имя пустое")
            } else if contains_space(&name) {
                Some("имя содержит пробелы")
            } else {
                None
            }
        },
        _ => Some("значение не строка"),
    }
}

impl FormEventTable {
    /// The names, by their views.
    pub open spec fn names(&self) -> Map<Seq<char>, Seq<char>> {
        string_values(self.map@)
    }

    /// Every identifier is in lower case.
    pub open spec fn wf(&self) -> bool {
        forall|k: Seq<char>| #[trigger] self.map@.dom().contains(k) ==> text::lowered(k) == k
    }

    /// The built-in table.
    pub fn builtin() -> (r: Self)
        ensures
            r.names() == table_of(builtin_events()),
            r.wf(),
    {
        let ghost all = builtin_events();
        let mut map: StrMap<String> = StrMap::new();
        assert(string_values(map@) =~= Map::empty());
        for i in 0..BUILTIN_FORM_EVENTS.len()
            invariant
                all == builtin_events(),
                string_values(map@) == table_of(all.take(i as int)),
                forall|k: Seq<char>| #[trigger] map@.dom().contains(k) ==> text::lowered(k) == k,
        {
            assert(all.take(i + 1).drop_last() =~= all.take(i as int));
            let (id, name) = BUILTIN_FORM_EVENTS[i];
            assert(all[i as int] == (id@, name@));
            let key = text::to_lowered(&text::chars_of(id));
            proof {
                lemma_lowered(id@);
            }
            let ghost before = map@;
            let value = name.to_owned();
            map.insert(key, value);
            assert(string_values(before.insert(key@, value)) =~= string_values(before).insert(
                key@,
                value@,
            ));
        }
        assert(all.take(BUILTIN_FORM_EVENTS@.len() as int) =~= all);
        FormEventTable { map }
    }

    /// Merges records into the table: good ones are added or take the place of
    /// others, the rest is left out.
    pub fn merge_records(&mut self, records: &Vec<(String, Json)>) -> (r: MergeStats)
        ensures
            final(self).names() == merged(old(self).names(), json::field_trees(records@)),
            stats_of(r, old(self).names(), json::field_trees(records@)),
            old(self).wf() ==> final(self).wf(),
    {
        let ghost all = json::field_trees(records@);
        let ghost start = self.names();
        let ghost well = self.wf();
        proof {
            json::lemma_field_trees(records@);
        }
        let mut stats = MergeStats::default();
        let n: usize = records.len();
        assert(all.take(0) =~= Seq::empty());
        for i in 0..n
            invariant
                n == records@.len(),
                n == all.len(),
                forall|k: int|
                    0 <= k < records@.len() ==> #[trigger] all[k] == (
                        records@[k].0@,
                        json::tree(records@[k].1),
                    ),
                self.names() == merged(start, all.take(i as int)),
                stats_of(stats, start, all.take(i as int)),
                stats.read == i,
                stats.added <= i,
                stats.overridden <= i,
                stats.rejected <= i,
                well ==> self.wf(),
        {
            assert(all.take(i + 1).drop_last() =~= all.take(i as int));
            assert(all.take(i + 1).last() == all[i as int]);
            let ghost before = self.map@;
            let ghost head = merged(start, all.take(i as int));
            stats.read = stats.read + 1;
            match record_fault(&records[i].0, &records[i].1) {
                Some(_) => {
                    stats.rejected = stats.rejected + 1;
                },
                None => {
                    if let Json::Text(name) = &records[i].1 {
                        let id = text::trimmed(&records[i].0);
                        let key = text::to_lowered(&text::chars_of(&id));
                        proof {
                            lemma_lowered(id@);
                        }
                        let value = text::trimmed(name);
                        let known = self.map.contains_key(&key);
                        assert(known == head.dom().contains(key@));
                        let ghost k = key@;
                        let ghost v = value;
                        self.map.insert(key, value);
                        assert(string_values(before.insert(k, v)) =~= string_values(
                            before,
                        ).insert(k, v@));
                        if known {
                            stats.overridden = stats.overridden + 1;
                        } else {
                            stats.added = stats.added + 1;
                        }
                    }
                },
            }
        }
        assert(all.take(n as int) =~= all);
        stats
    }

    /// Merges a JSON document of the form `{"<uuid>": "<name>", ...}` into the
    /// table; none where the text is no JSON object, and then the table stays
    /// as it is.
    pub fn merge_json_str(&mut self, text: &str, _label: &str) -> (r: Option<MergeStats>)
        ensures
            match (json::json(text@), r) {
                (Some(Tree::Object(records)), Some(stats)) => final(self).names() == merged(
                    old(self).names(),
                    records,
                ) && stats_of(stats, old(self).names(), records),
                (Some(Tree::Object(_)), None) => false,
                (_, Some(_)) => false,
                (_, None) => *final(self) == *old(self),
            },
            old(self).wf() ==> final(self).wf(),
    {
        match json::parse_json(text) {
            Some(Json::Object(records)) => Some(self.merge_records(&records)),
            _ => None,
        }
    }

    /// The name of an event; the case of the identifier does not matter.
    pub fn event_name(&self, id: &str) -> (r: Option<&str>)
        ensures
            opt_str(r) == lookup(self.names(), text::lower(id@)),
    {
        let key = text::to_lowercase(id);
        match self.map.get(&key) {
            Some(name) => Some(name.as_str()),
            None => None,
        }
    }
}

/// The warnings about records that are no good; `label` tells the file.
pub fn merge_warnings(records: &Vec<(String, Json)>, label: &str) -> (r: Vec<String>)
    ensures
        text::views(r@) == warnings(json::field_trees(records@), label@),
{
    let ghost all = json::field_trees(records@);
    proof {
        json::lemma_field_trees(records@);
    }
    let mut out: Vec<String> = Vec::new();
    let n: usize = records.len();
    for i in 0..n
        invariant
            n == records@.len(),
            n == all.len(),
            forall|k: int|
                0 <= k < records@.len() ==> #[trigger] all[k] == (
                    records@[k].0@,
                    json::tree(records@[k].1),
                ),
            text::views(out@) == warnings(all.take(i as int), label@),
    {
        assert(all.take(i + 1).drop_last() =~= all.take(i as int));
        assert(all.take(i + 1).last() == all[i as int]);
        if let Some(reason) = record_fault(&records[i].0, &records[i].1) {
            let mut m = "⚠ formEventsPath (".to_owned();
            m.append(label);
            m.append("): запись '");
            m.append(&records[i].0);
            m.append("' отброшена — ");
            m.append(reason);
            let ghost before = out@;
            out.push(m);
            assert(text::views(out@) =~= text::views(before).push(m@));
        }
    }
    assert(all.take(n as int) =~= all);
    out
}

/// What the log says of a file that was merged.
pub fn merge_report(label: &str, stats: &MergeStats) -> (r: String)
    ensures
        r@ == "formEventsPath: "@ + label@ + " — прочитано "@ + text::dec(stats.read as nat)
            + ", новых "@ + text::dec(stats.added as nat) + ", переопределено "@ + text::dec(
            stats.overridden as nat,
        ),
{
    let mut m = "formEventsPath: ".to_owned();
    m.append(label);
    m.append(" — прочитано ");
    let a = text::dec_of(stats.read as u64);
    m.append(&a);
    m.append(", новых ");
    let b = text::dec_of(stats.added as u64);
    m.append(&b);
    m.append(", переопределено ");
    let c = text::dec_of(stats.overridden as u64);
    m.append(&c);
    m
}

// Laws.

proof fn lemma_lowered(s: Seq<char>)
    ensures
        text::lowered(text::lowered(s)) == text::lowered(s),
{
    assert(text::lowered(text::lowered(s)) =~= text::lowered(s));
}

/// Every record of a file is added, takes the place of another or is left out.
pub proof fn every_record_counts_once(
    m: Map<Seq<char>, Seq<char>>,
    records: Seq<(Seq<char>, Tree)>,
)
    ensures
        records.len() == merged_count(m, records, false) + merged_count(m, records, true)
            + rejected_count(records),
    decreases records.len(),
{
    if records.len() > 0 {
        every_record_counts_once(m, records.drop_last());
    }
}

/// The first four characters of a text, as one number.
spec fn head(s: Seq<char>) -> int {
    s[0] as int * 0x1000000 + s[1] as int * 0x10000 + s[2] as int * 0x100 + s[3] as int
}

/// The place in the built-in table of the identifier with the given head.
spec fn place_of(h: int) -> int {
    if h == 0x64653635 {
        0
    } else if h == 0x31373861 {
        1
    } else if h == 0x32333931 {
        2
    } else if h == 0x32636366 {
        3
    } else if h == 0x34643838 {
        4
    } else if h == 0x61623933 {
        5
    } else if h == 0x38626664 {
        6
    } else if h == 0x66373230 {
        7
    } else if h == 0x62353064 {
        8
    } else if h == 0x31313730 {
        9
    } else if h == 0x39383734 {
        10
    } else if h == 0x65626135 {
        11
    } else if h == 0x35333332 {
        12
    } else if h == 0x38616434 {
        13
    } else if h == 0x30643634 {
        14
    } else if h == 0x63623238 {
        15
    } else if h == 0x36643464 {
        16
    } else if h == 0x66323238 {
        17
    } else if h == 0x36306564 {
        18
    } else if h == 0x66653131 {
        19
    } else if h == 0x64613864 {
        20
    } else if h == 0x35323663 {
        21
    } else if h == 0x30316438 {
        22
    } else if h == 0x39373336 {
        23
    } else if h == 0x62336331 {
        24
    } else if h == 0x61633561 {
        25
    } else if h == 0x31323832 {
        26
    } else if h == 0x31393630 {
        27
    } else if h == 0x64373130 {
        28
    } else {
        -1
    }
}

/// The identifiers of the built-in table are told apart by their heads.
proof fn lemma_places(i: int)
    requires
        0 <= i < 29,
    ensures
        builtin_events().len() == 29,
        builtin_events()[i].0.len() == 36,
        place_of(head(text::lowered(builtin_events()[i].0))) == i,
{
    reveal_strlit("de65638d-a806-4a76-bc10-f62bbc86e0e7");
    reveal_strlit("178a97c4-0ffe-4fcc-93e6-505369939da5");
    reveal_strlit("2391e7b8-7235-45d7-ab7e-6ff3dc086396");
    reveal_strlit("2ccfdec5-583d-4eca-8319-e55de492665a");
    reveal_strlit("4d88756d-bad4-4fde-92e1-c1f1402ac6b2");
    reveal_strlit("ab930362-ff94-4dcb-ad16-188805d23e3c");
    reveal_strlit("8bfdb5eb-62dc-4851-8a2c-e983526356bf");
    reveal_strlit("f72043b8-2d79-414e-bc4e-3972fe9dbca1");
    reveal_strlit("b50dc41b-c15a-4ebe-a17f-d01e51c47de6");
    reveal_strlit("11707a99-4eb9-4373-bc8c-84891483a034");
    reveal_strlit("9874537f-454c-40ae-83e9-3b9cefbc6d08");
    reveal_strlit("eba5f295-c611-4dd9-84b5-22911ad60c53");
    reveal_strlit("53325f0c-b112-4c44-ab12-5d1ee0b1f07b");
    reveal_strlit("8ad48496-8d0b-4f6c-ae48-99d95227884b");
    reveal_strlit("0d644ff6-443b-4390-86fa-7f9105e42711");
    reveal_strlit("cb286ab3-3a1c-40d2-a232-6e64f624ccec");
    reveal_strlit("6d4d6747-a823-4f61-ab31-a426572f2c6c");
    reveal_strlit("f228b12f-d892-4925-b338-695617357b32");
    reveal_strlit("60edb81d-887b-478e-94ee-7fef2b13393d");
    reveal_strlit("fe115cc8-9e33-4684-a166-bd5136fe7a9f");
    reveal_strlit("da8dfb86-c5d1-4e35-a8a4-01b167a60ad3");
    reveal_strlit("526c501f-ed3f-4db4-8731-fd0324707501");
    reveal_strlit("01d80ddd-dce5-4db3-beb5-f63c97cb05b9");
    reveal_strlit("97365900-eadf-4dfd-a9aa-fbb9ecabd079");
    reveal_strlit("b3c10170-c5ff-4cba-b537-679e1c872b45");
    reveal_strlit("ac5a9c5a-5f1d-4fc5-b88c-a187038c16d1");
    reveal_strlit("1282f000-23b6-4887-87f4-9e8e79db3d32");
    reveal_strlit("1960479b-4d89-4eba-8b39-0aa802020558");
    reveal_strlit("d710ea07-5c96-4c43-ab6e-e138d3653780");
    assert(head(BUILTIN_FORM_EVENTS@[0].0@) == 0x64653635);
    assert(head(BUILTIN_FORM_EVENTS@[1].0@) == 0x31373861);
    assert(head(BUILTIN_FORM_EVENTS@[2].0@) == 0x32333931);
    assert(head(BUILTIN_FORM_EVENTS@[3].0@) == 0x32636366);
    assert(head(BUILTIN_FORM_EVENTS@[4].0@) == 0x34643838);
    assert(head(BUILTIN_FORM_EVENTS@[5].0@) == 0x61623933);
    assert(head(BUILTIN_FORM_EVENTS@[6].0@) == 0x38626664);
    assert(head(BUILTIN_FORM_EVENTS@[7].0@) == 0x66373230);
    assert(head(BUILTIN_FORM_EVENTS@[8].0@) == 0x62353064);
    assert(head(BUILTIN_FORM_EVENTS@[9].0@) == 0x31313730);
    assert(head(BUILTIN_FORM_EVENTS@[10].0@) == 0x39383734);
    assert(head(BUILTIN_FORM_EVENTS@[11].0@) == 0x65626135);
    assert(head(BUILTIN_FORM_EVENTS@[12].0@) == 0x35333332);
    assert(head(BUILTIN_FORM_EVENTS@[13].0@) == 0x38616434);
    assert(head(BUILTIN_FORM_EVENTS@[14].0@) == 0x30643634);
    assert(head(BUILTIN_FORM_EVENTS@[15].0@) == 0x63623238);
    assert(head(BUILTIN_FORM_EVENTS@[16].0@) == 0x36643464);
    assert(head(BUILTIN_FORM_EVENTS@[17].0@) == 0x66323238);
    assert(head(BUILTIN_FORM_EVENTS@[18].0@) == 0x36306564);
    assert(head(BUILTIN_FORM_EVENTS@[19].0@) == 0x66653131);
    assert(head(BUILTIN_FORM_EVENTS@[20].0@) == 0x64613864);
    assert(head(BUILTIN_FORM_EVENTS@[21].0@) == 0x35323663);
    assert(head(BUILTIN_FORM_EVENTS@[22].0@) == 0x30316438);
    assert(head(BUILTIN_FORM_EVENTS@[23].0@) == 0x39373336);
    assert(head(BUILTIN_FORM_EVENTS@[24].0@) == 0x62336331);
    assert(head(BUILTIN_FORM_EVENTS@[25].0@) == 0x61633561);
    assert(head(BUILTIN_FORM_EVENTS@[26].0@) == 0x31323832);
    assert(head(BUILTIN_FORM_EVENTS@[27].0@) == 0x31393630);
    assert(head(BUILTIN_FORM_EVENTS@[28].0@) == 0x64373130);
}

/// An identifier has a name in a table exactly where one of its events has that
/// identifier, and the last such event gives the name.
proof fn lemma_table_of(events: Seq<(Seq<char>, Seq<char>)>, key: Seq<char>)
    ensures
        match lookup(table_of(events), key) {
            Some(name) => exists|i: int|
                0 <= i < events.len() && text::lowered((#[trigger] events[i]).0) == key
                    && events[i].1 == name,
            None => forall|i: int|
                0 <= i < events.len() ==> text::lowered((#[trigger] events[i]).0) != key,
        },
    decreases events.len(),
{
    if events.len() > 0 {
        let e0 = events.drop_last();
        lemma_table_of(e0, key);
        if text::lowered(events.last().0) == key {
            assert(events[events.len() - 1] == events.last());
        } else {
            match lookup(table_of(e0), key) {
                Some(name) => {
                    let i = choose|i: int|
                        0 <= i < e0.len() && text::lowered((#[trigger] e0[i]).0) == key && e0[i].1
                            == name;
                    assert(events[i] == e0[i]);
                },
                None => {
                    assert forall|i: int| 0 <= i < events.len() implies text::lowered(
                        (#[trigger] events[i]).0,
                    ) != key by {
                        if i < e0.len() {
                            assert(e0[i] == events[i]);
                        }
                    }
                },
            }
        }
    }
}

/// The built-in table is complete: it has 29 events, each of their identifiers,
/// in either case, has its name, and no other identifier has one.
pub proof fn builtin_table_is_complete(id: Seq<char>, i: int)
    ensures
        builtin_events().len() == 29,
        0 <= i < 29 && text::eq_ignore_case(id, builtin_events()[i].0) ==> lookup(
            table_of(builtin_events()),
            text::lowered(id),
        ) == Some(builtin_events()[i].1),
        (forall|j: int|
            0 <= j < 29 ==> !text::eq_ignore_case(id, (#[trigger] builtin_events()[j]).0))
            ==> lookup(table_of(builtin_events()), text::lowered(id)) is None,
{
    let events = builtin_events();
    let key = text::lowered(id);
    lemma_places(0);
    lemma_table_of(events, key);
    match lookup(table_of(events), key) {
        Some(name) => {
            let k = choose|k: int|
                0 <= k < events.len() && text::lowered((#[trigger] events[k]).0) == key
                    && events[k].1 == name;
            lemma_places(k);
            lemma_eq_by_lowered(id, events[k].0);
            if 0 <= i < 29 && text::eq_ignore_case(id, events[i].0) {
                lemma_places(i);
                assert(text::lowered(events[i].0) =~= key);
            }
        },
        None => {
            if 0 <= i < 29 && text::eq_ignore_case(id, events[i].0) {
                assert(text::lowered(events[i].0) =~= key);
            }
        },
    }
}

proof fn lemma_eq_by_lowered(a: Seq<char>, b: Seq<char>)
    requires
        text::lowered(a) == text::lowered(b),
    ensures
        text::eq_ignore_case(a, b),
{
    assert(text::lowered(a).len() == a.len() && text::lowered(b).len() == b.len());
    assert forall|i: int| 0 <= i < a.len() implies text::lower_ascii(#[trigger] a[i])
        == text::lower_ascii(b[i]) by {
        assert(text::lowered(a)[i] == text::lower_ascii(a[i]));
        assert(text::lowered(b)[i] == text::lower_ascii(b[i]));
    }
}

/// Two identifiers that differ in case only name the same event.
pub proof fn case_does_not_matter(m: Map<Seq<char>, Seq<char>>, a: Seq<char>, b: Seq<char>)
    requires
        text::eq_ignore_case(a, b),
    ensures
        lookup(m, text::lowered(a)) == lookup(m, text::lowered(b)),
{
    assert(text::lowered(a) =~= text::lowered(b));
}

/// A good record is found after merging, unless a later one has the same
/// identifier; an identifier that no good record has keeps its name.
pub proof fn good_records_are_found(
    m: Map<Seq<char>, Seq<char>>,
    records: Seq<(Seq<char>, Tree)>,
    i: int,
    key: Seq<char>,
)
    ensures
        0 <= i < records.len() && rejection(records[i].0, records[i].1) is None && (forall|j: int|
            i < j < records.len() && rejection((#[trigger] records[j]).0, records[j].1) is None
                ==> record_key(records[j].0) != record_key(records[i].0)) ==> lookup(
            merged(m, records),
            record_key(records[i].0),
        ) == Some(record_name(records[i].1)),
        (forall|j: int|
            0 <= j < records.len() && rejection((#[trigger] records[j]).0, records[j].1) is None
                ==> record_key(records[j].0) != key) ==> lookup(merged(m, records), key) == lookup(
            m,
            key,
        ),
    decreases records.len(),
{
    if records.len() > 0 {
        let head = records.drop_last();
        let n = records.len() - 1;
        good_records_are_found(m, head, i, key);
        assert(records[n] == records.last());
        assert forall|j: int| 0 <= j < n implies head[j] == #[trigger] records[j] by {}
    }
}

/// A record is good where its name is a text, not blank and without white space
/// inside, and its identifier is one; each fault has its own words.
pub proof fn bad_records_are_rejected(id: Seq<char>, raw: Tree)
    ensures
        rejection(id, raw) is None <==> raw is Text && text::is_uuid(text::trim(id)) && text::trim(
            raw->Text_0,
        ).len() > 0 && (forall|i: int|
            0 <= i < text::trim(raw->Text_0).len() ==> !text::is_space(
                #[trigger] text::trim(raw->Text_0)[i],
            )),
        !(raw is Text) ==> rejection(id, raw) == Some("значение не строка"@),
        raw is Text && !text::is_uuid(text::trim(id)) ==> rejection(id, raw) == Some(
            "идентификатор не uuid вида 8-4-4-4-12"@,
        ),
        raw is Text && text::is_uuid(text::trim(id)) && text::trim(raw->Text_0).len() == 0
            ==> rejection(id, raw) == Some("имя пустое"@),
        record_key(id) == text::lowered(text::trim(id)),
        raw matches Tree::Text(name) ==> record_name(raw) == text::trim(name),
{
}

/// A table has the last name that is given for an identifier, whatever its case.
pub proof fn last_name_of_an_event_counts(
    events: Seq<(Seq<char>, Seq<char>)>,
    id: Seq<char>,
    name: Seq<char>,
    other: Seq<char>,
)
    ensures
        lookup(table_of(events.push((id, name))), text::lowered(id)) == Some(name),
        other != text::lowered(id) ==> lookup(table_of(events.push((id, name))), other) == lookup(
            table_of(events),
            other,
        ),
        lookup(table_of(Seq::empty()), other) is None,
{
    assert(events.push((id, name)).drop_last() =~= events);
}

/// Each record that is left out has a warning, with the file, the record and the
/// reason, and no other has one.
pub proof fn rejected_records_are_warned_about(
    records: Seq<(Seq<char>, Tree)>,
    id: Seq<char>,
    raw: Tree,
    label: Seq<char>,
)
    ensures
        warnings(records.push((id, raw)), label) == match rejection(id, raw) {
            Some(reason) => warnings(records, label).push(
                "⚠ formEventsPath ("@ + label + "): запись '"@ + id + "' отброшена — "@ + reason,
            ),
            None => warnings(records, label),
        },
        warnings(Seq::empty(), label).len() == 0,
        rejected_count(records.push((id, raw))) == rejected_count(records) + if rejection(id, raw)
            is Some {
            1nat
        } else {
            0
        },
{
    assert(records.push((id, raw)).drop_last() =~= records);
}

/// What was counted is what was read: all records, those that were new, those
/// that took the place of another and those that were left out.
pub proof fn counts_are_those_of_the_records(
    s: MergeStats,
    m: Map<Seq<char>, Seq<char>>,
    records: Seq<(Seq<char>, Tree)>,
)
    requires
        stats_of(s, m, records),
    ensures
        s.read == records.len(),
        s.read == s.added + s.overridden + s.rejected,
        s.rejected == rejected_count(records),
{
    every_record_counts_once(m, records);
}

/// A good record is new where the table does not know its identifier yet, and
/// takes the place of another where it does.
pub proof fn new_records_are_told_from_known_ones(
    m: Map<Seq<char>, Seq<char>>,
    records: Seq<(Seq<char>, Tree)>,
    id: Seq<char>,
    raw: Tree,
)
    ensures
        ({
            let all = records.push((id, raw));
            let good = rejection(id, raw) is None;
            let known = merged(m, records).dom().contains(text::lowered(text::trim(id)));
            &&& merged_count(m, all, false) == merged_count(m, records, false) + if good && !known {
                1nat
            } else {
                0
            }
            &&& merged_count(m, all, true) == merged_count(m, records, true) + if good && known {
                1nat
            } else {
                0
            }
        }),
        merged_count(m, Seq::empty(), true) == 0,
        merged_count(m, Seq::empty(), false) == 0,
{
    assert(records.push((id, raw)).drop_last() =~= records);
}

} // verus!
