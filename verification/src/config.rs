//! Sensor configuration read from XML settings files: the flattened
//! key/value view of an XML document, the typed value parsers, the sensor
//! model rule and the integer and text settings of a pipeline.

use quick_xml::events::Event;
use quick_xml::XmlVersion;
use vstd::prelude::*;
use vstd::string::StrSliceExecFns;

use crate::error::{QuanergyError, Result};
use crate::protocol::{spec_return_selection, ReturnSelection, M_SERIES_NUM_LASERS};
use crate::text::{
    ascii_lower_all, chars_of, contains_str, spec_ascii_lower_seq, spec_contains, spec_parse_unsigned,
    spec_decimal, spec_trim, string_from_chars, trim_chars, parse_unsigned_chars, push_decimal,
};

verus! {

/// The sensor families the client tells apart.
#[derive(Debug, Clone, PartialEq)]
pub enum SensorModel {
    M8,
    Mq8,
    M1,
    Other(String),
}

/// The model named by a device description: `mq` anywhere (in any case)
/// names an MQ-8, else `m1` an M1, else `m8` or a leading `m` an M8.
pub open spec fn spec_sensor_model_kind(value: Seq<char>) -> int {
    let lower = spec_ascii_lower_seq(value);
    if spec_contains(lower, "mq"@) {
        1
    } else if spec_contains(lower, "m1"@) {
        2
    } else if spec_contains(lower, "m8"@) || (lower.len() > 0 && lower[0] == 'm') {
        0
    } else {
        3
    }
}

impl SensorModel {
    /// Recognizes the sensor family from the model text of a device
    /// description; unknown text is kept as given.
    pub fn parse(value: &str) -> (r: Self)
        ensures
            spec_sensor_model_kind(value@) == 0 ==> r is M8,
            spec_sensor_model_kind(value@) == 1 ==> r is Mq8,
            spec_sensor_model_kind(value@) == 2 ==> r is M1,
            spec_sensor_model_kind(value@) == 3 ==> (r matches SensorModel::Other(s) && s@ == value@),
    {
        let lower = ascii_lower_all(&chars_of(value));
        if contains_str(&lower, "mq") {
            SensorModel::Mq8
        } else if contains_str(&lower, "m1") {
            SensorModel::M1
        } else if contains_str(&lower, "m8") || (lower.len() > 0 && lower[0] == 'm') {
            SensorModel::M8
        } else {
            SensorModel::Other(value.to_owned())
        }
    }
}

/// The value an optional numeric setting parses to: none for blank text,
/// else the trimmed text read as an unsigned integer no larger than `max`.
pub open spec fn spec_optional_unsigned(value: Seq<char>, max: int) -> Option<int> {
    let t = spec_trim(value);
    if t.len() == 0 {
        None
    } else {
        spec_parse_unsigned(t, max)
    }
}

/// Reads an optional `usize` setting.
pub fn parse_optional_usize(value: &str) -> (r: Option<usize>)
    ensures
        match spec_optional_unsigned(value@, usize::MAX as int) {
            Some(v) => r == Some(v as usize) && 0 <= v <= usize::MAX,
            None => r is None,
        },
{
    let t = trim_chars(&chars_of(value));
    if t.len() == 0 {
        return None;
    }
    match parse_unsigned_chars(&t, usize::MAX as u64) {
        Some(v) => Some(v as usize),
        None => None,
    }
}

/// Reads an optional `u8` setting.
pub fn parse_optional_u8(value: &str) -> (r: Option<u8>)
    ensures
        match spec_optional_unsigned(value@, u8::MAX as int) {
            Some(v) => r == Some(v as u8) && 0 <= v <= u8::MAX,
            None => r is None,
        },
{
    let t = trim_chars(&chars_of(value));
    if t.len() == 0 {
        return None;
    }
    match parse_unsigned_chars(&t, 255) {
        Some(v) => Some(v as u8),
        None => None,
    }
}

/// The value an optional flag parses to: `true`, `1`, `yes` and `false`,
/// `0`, `no` in any case, after trimming; anything else is no value.
pub open spec fn spec_optional_bool(value: Seq<char>) -> Option<bool> {
    let t = spec_ascii_lower_seq(spec_trim(value));
    if t == "true"@ || t == "1"@ || t == "yes"@ {
        Some(true)
    } else if t == "false"@ || t == "0"@ || t == "no"@ {
        Some(false)
    } else {
        None
    }
}

/// Whether `v` holds exactly the characters of the literal `lit`.
fn chars_equal(v: &Vec<char>, lit: &str) -> (r: bool)
    ensures
        r == (v@ == lit@),
{
    let w = chars_of(lit);
    if v.len() != w.len() {
        return false;
    }
    let mut i: usize = 0;
    while i < v.len()
        invariant
            i <= v.len(),
            v.len() == w.len(),
            w@ == lit@,
            forall|k: int| 0 <= k < i ==> v@[k] == w@[k],
        decreases v.len() - i,
    {
        if v[i] != w[i] {
            return false;
        }
        i = i + 1;
    }
    assert(v@ =~= w@);
    true
}

/// Reads an optional flag setting.
pub fn parse_optional_bool(value: &str) -> (r: Option<bool>)
    ensures
        r == spec_optional_bool(value@),
{
    let t = ascii_lower_all(&trim_chars(&chars_of(value)));
    proof {
        reveal_strlit("true");
        reveal_strlit("1");
        reveal_strlit("yes");
        reveal_strlit("false");
        reveal_strlit("0");
        reveal_strlit("no");
    }
    if chars_equal(&t, "true") || chars_equal(&t, "1") || chars_equal(&t, "yes") {
        Some(true)
    } else if chars_equal(&t, "false") || chars_equal(&t, "0") || chars_equal(&t, "no") {
        Some(false)
    } else {
        None
    }
}

/// The value stored for `key` in a list of insertions where a later
/// insertion of a key replaces the earlier ones.
pub open spec fn spec_lookup(entries: Seq<(Seq<char>, Seq<char>)>, key: Seq<char>) -> Option<Seq<char>>
    decreases entries.len(),
{
    if entries.len() == 0 {
        None
    } else if entries.last().0 == key {
        Some(entries.last().1)
    } else {
        spec_lookup(entries.drop_last(), key)
    }
}

/// Reading a key just stored gives the stored value, and storing a value
/// leaves every other key as it was.
pub proof fn lemma_lookup_after_insert(entries: Seq<(Seq<char>, Seq<char>)>, key: Seq<char>, value: Seq<char>, other: Seq<char>)
    ensures
        spec_lookup(entries.push((key, value)), key) == Some(value),
        other != key ==> spec_lookup(entries.push((key, value)), other) == spec_lookup(entries, other),
{
    assert(entries.push((key, value)).drop_last() =~= entries);
}

/// The values of an XML document, keyed by the dot-joined path of element
/// names that leads to each text.
#[derive(Debug, Clone)]
pub struct XmlValues {
    entries: Vec<(String, String)>,
}

impl View for XmlValues {
    type V = Seq<(Seq<char>, Seq<char>)>;

    /// The insertions made so far, in order.
    closed spec fn view(&self) -> Seq<(Seq<char>, Seq<char>)> {
        self.entries@.map_values(|e: (String, String)| (e.0@, e.1@))
    }
}

impl XmlValues {
    /// No values.
    pub fn new() -> (r: Self)
        ensures
            r@ == Seq::<(Seq<char>, Seq<char>)>::empty(),
    {
        let r = XmlValues { entries: Vec::new() };
        assert(r@ =~= Seq::<(Seq<char>, Seq<char>)>::empty());
        r
    }

    /// Stores `value` for `key`, replacing what was stored before.
    pub fn insert(&mut self, key: String, value: String)
        ensures
            final(self)@ == old(self)@.push((key@, value@)),
    {
        self.entries.push((key, value));
        assert(self@ =~= old(self)@.push((key@, value@)));
    }

    /// The value stored for `key`.
    pub fn get(&self, key: &str) -> (r: Option<&String>)
        ensures
            match spec_lookup(self@, key@) {
                Some(v) => r matches Some(s) && s@ == v,
                None => r is None,
            },
    {
        let k = String::from_str(key);
        let mut i: usize = self.entries.len();
        assert(self@.subrange(0, i as int) =~= self@);
        while i > 0
            invariant
                i <= self.entries.len(),
                k@ == key@,
                spec_lookup(self@, key@) == spec_lookup(self@.subrange(0, i as int), key@),
            decreases i,
        {
            let ghost pre = self@.subrange(0, i as int);
            assert(pre.drop_last() =~= self@.subrange(0, i - 1));
            assert(pre.last() == (self.entries@[i - 1].0@, self.entries@[i - 1].1@));
            if self.entries[i - 1].0 == k {
                return Some(&self.entries[i - 1].1);
            }
            i = i - 1;
        }
        None
    }
}

/// The value stored under `lower_key`, else under `sample_key`: settings
/// files and the sample settings files spell some keys differently.
pub fn get_case_fallback<'a>(values: &'a XmlValues, lower_key: &str, sample_key: &str) -> (r: Option<&'a String>)
    ensures
        match spec_lookup(values@, lower_key@) {
            Some(v) => r matches Some(s) && s@ == v,
            None => match spec_lookup(values@, sample_key@) {
                Some(v) => r matches Some(s) && s@ == v,
                None => r is None,
            },
        },
{
    match values.get(lower_key) {
        Some(v) => Some(v),
        None => values.get(sample_key),
    }
}

/// One attribute of a start tag: its name and its normalized value, or
/// the reason the value could not be read.
#[derive(Debug)]
pub struct XmlAttribute {
    pub key: String,
    pub value: core::result::Result<String, String>,
}

/// One step of reading an XML document.
#[derive(Debug)]
pub enum XmlEvent {
    /// A start tag with its name and its attributes in order; an attribute
    /// that could not be parsed at all is `None`.
    Start(String, Vec<Option<XmlAttribute>>),
    /// Character data between tags, trimmed by the reader.
    Text(String),
    /// An end tag.
    End,
    /// The end of the document.
    Eof,
    /// Anything else (comments, declarations, empty-element tags, ...).
    Other,
}

/// An attribute as plain values: its name, and its value or the reason it
/// could not be read.
pub type AttributeModel = (Seq<char>, core::result::Result<Seq<char>, Seq<char>>);

/// An attribute slot as plain values (`None` for an attribute that could
/// not be split off).
pub open spec fn attribute_model(a: Option<XmlAttribute>) -> Option<AttributeModel> {
    match a {
        Some(x) => Some((x.key@, match x.value {
            Ok(v) => Ok(v@),
            Err(m) => Err(m@),
        })),
        None => None,
    }
}

/// The attributes of a start tag as plain values.
pub open spec fn attribute_models(attrs: Seq<Option<XmlAttribute>>) -> Seq<Option<AttributeModel>> {
    attrs.map_values(|a: Option<XmlAttribute>| attribute_model(a))
}

/// A step of reading an XML document, as plain values.
pub enum XmlEventModel {
    Start(Seq<char>, Seq<Option<AttributeModel>>),
    Text(Seq<char>),
    End,
    Eof,
    Other,
}

impl View for XmlEvent {
    type V = XmlEventModel;

    open spec fn view(&self) -> XmlEventModel {
        match self {
            XmlEvent::Start(name, attrs) => XmlEventModel::Start(name@, attribute_models(attrs@)),
            XmlEvent::Text(t) => XmlEventModel::Text(t@),
            XmlEvent::End => XmlEventModel::End,
            XmlEvent::Eof => XmlEventModel::Eof,
            XmlEvent::Other => XmlEventModel::Other,
        }
    }
}

/// The dot-joined element path.
pub open spec fn spec_join(p: Seq<Seq<char>>) -> Seq<char>
    decreases p.len(),
{
    if p.len() == 0 {
        Seq::empty()
    } else if p.len() == 1 {
        p[0]
    } else {
        spec_join(p.drop_last()) + seq!['.'] + p.last()
    }
}

/// The path name of a `laser` element: `laser#<id>` for each `id`
/// attribute in turn (the last one wins), or the first `id` value that
/// could not be read.
pub open spec fn spec_laser_name(attrs: Seq<Option<AttributeModel>>, name: Seq<char>) -> core::result::Result<Seq<char>, Seq<char>>
    decreases attrs.len(),
{
    if attrs.len() == 0 {
        Ok(name)
    } else {
        let next: core::result::Result<Seq<char>, Seq<char>> = match attrs[0] {
            Some(a) => if a.0 == "id"@ {
                match a.1 {
                    Ok(v) => Ok("laser#"@ + v),
                    Err(m) => Err(m),
                }
            } else {
                Ok(name)
            },
            None => Ok(name),
        };
        match next {
            Ok(n) => spec_laser_name(attrs.drop_first(), n),
            Err(m) => Err(m),
        }
    }
}

/// The name an element contributes to the path.
pub open spec fn spec_path_name(name: Seq<char>, attrs: Seq<Option<AttributeModel>>) -> core::result::Result<Seq<char>, Seq<char>> {
    if name == "laser"@ {
        spec_laser_name(attrs, name)
    } else {
        Ok(name)
    }
}

/// The views of a list of strings.
pub open spec fn string_views(v: Seq<String>) -> Seq<Seq<char>> {
    v.map_values(|s: String| s@)
}

/// The dot-joined path of `path`.
pub fn join_path(path: &Vec<String>) -> (r: String)
    ensures
        r@ == spec_join(string_views(path@)),
{
    let ghost views = string_views(path@);
    if path.len() == 0 {
        return String::new();
    }
    let mut r = path[0].clone();
    assert(views.subrange(0, 1) =~= seq![views[0]]);
    let mut i: usize = 1;
    while i < path.len()
        invariant
            1 <= i <= path.len(),
            views == string_views(path@),
            r@ == spec_join(views.subrange(0, i as int)),
        decreases path.len() - i,
    {
        let ghost prev = views.subrange(0, i as int);
        r = r.concat(".").concat(path[i].as_str());
        proof {
            reveal_strlit(".");
            let next = views.subrange(0, i + 1);
            assert(next.drop_last() =~= prev);
            assert(next.last() == path@[i as int]@);
            assert(r@ =~= spec_join(prev) + seq!['.'] + next.last());
        }
        i = i + 1;
    }
    assert(views.subrange(0, path.len() as int) =~= views);
    r
}

/// One event taken into account by a flattener whose open elements are
/// `path` and whose values so far are `collected`: the new path, the new
/// values and whether reading goes on, or the message of a refused start
/// tag. A start tag opens an element, a non-blank text inside an element
/// is stored trimmed under the element path, an end tag closes the
/// innermost element, and the end of the document stops the reading.
pub open spec fn spec_flatten_step(
    path: Seq<Seq<char>>,
    collected: Seq<(Seq<char>, Seq<char>)>,
    event: XmlEventModel,
) -> core::result::Result<(Seq<Seq<char>>, Seq<(Seq<char>, Seq<char>)>, bool), Seq<char>> {
    match event {
        XmlEventModel::Start(name, attrs) => match spec_path_name(name, attrs) {
            Ok(n) => Ok((path.push(n), collected, true)),
            Err(m) => Err(m),
        },
        XmlEventModel::Text(t) => Ok((
            path,
            if spec_trim(t).len() > 0 && path.len() > 0 {
                collected.push((spec_join(path), spec_trim(t)))
            } else {
                collected
            },
            true,
        )),
        XmlEventModel::End => Ok((if path.len() > 0 { path.drop_last() } else { path }, collected, true)),
        XmlEventModel::Eof => Ok((path, collected, false)),
        XmlEventModel::Other => Ok((path, collected, true)),
    }
}

/// The state of turning an XML document into path/value pairs: the open
/// elements and the values collected so far.
pub struct XmlFlattener {
    path: Vec<String>,
    values: XmlValues,
}

impl XmlFlattener {
    /// The names of the open elements, outermost first.
    pub closed spec fn open_path(&self) -> Seq<Seq<char>> {
        string_views(self.path@)
    }

    /// The values collected so far.
    pub closed spec fn collected(&self) -> Seq<(Seq<char>, Seq<char>)> {
        self.values@
    }

    /// Nothing read yet.
    pub fn new() -> (r: Self)
        ensures
            r.open_path() == Seq::<Seq<char>>::empty(),
            r.collected() == Seq::<(Seq<char>, Seq<char>)>::empty(),
    {
        let r = XmlFlattener { path: Vec::new(), values: XmlValues::new() };
        assert(r.open_path() =~= Seq::<Seq<char>>::empty());
        r
    }

    /// The values collected, once the document has been read.
    pub fn into_values(self) -> (r: XmlValues)
        ensures
            r@ == self.collected(),
    {
        self.values
    }

    /// Takes one event into account; the result tells whether reading
    /// should go on (it stops at the end of the document).
    #[verifier::loop_isolation(false)]
    pub fn step(&mut self, event: XmlEvent) -> (r: Result<bool>)
        ensures
            match spec_flatten_step(old(self).open_path(), old(self).collected(), event@) {
                Ok((p, c, more)) => r == Ok::<bool, QuanergyError>(more) && final(self).open_path() == p
                    && final(self).collected() == c,
                Err(m) => (r matches Err(QuanergyError::Xml(e)) && e@ == m) && *final(self) == *old(self),
            },
    {
        match event {
            XmlEvent::Start(name, attrs) => {
                let is_laser = chars_equal(&chars_of(name.as_str()), "laser");
                let mut n = name;
                if is_laser {
                    assert(attribute_models(attrs@).subrange(0, attrs.len() as int) =~= attribute_models(attrs@));
                    let mut i: usize = 0;
                    while i < attrs.len()
                        invariant
                            i <= attrs.len(),
                            *self == *old(self),
                            spec_path_name(name@, attribute_models(attrs@)) == spec_laser_name(attribute_models(attrs@).subrange(i as int, attrs.len() as int), n@),
                        decreases attrs.len() - i,
                    {
                        let ghost rest = attribute_models(attrs@).subrange(i as int, attrs.len() as int);
                        assert(rest.drop_first() =~= attribute_models(attrs@).subrange(i + 1, attrs.len() as int));
                        assert(rest[0] == attribute_model(attrs@[i as int]));
                        match &attrs[i] {
                            Some(a) => {
                                if chars_equal(&chars_of(a.key.as_str()), "id") {
                                    match &a.value {
                                        Ok(v) => {
                                            n = String::from_str("laser#").concat(v.as_str());
                                            proof {
                                                reveal_strlit("laser#");
                                            }
                                        },
                                        Err(m) => {
                                            assert(spec_laser_name(rest, n@) == core::result::Result::<Seq<char>, Seq<char>>::Err(m@));
                                            return Err(QuanergyError::Xml(m.clone()));
                                        },
                                    }
                                }
                            },
                            None => {},
                        }
                        i = i + 1;
                    }
                    assert(attribute_models(attrs@).subrange(attrs.len() as int, attrs.len() as int) =~= Seq::<Option<AttributeModel>>::empty());
                }
                self.path.push(n);
                assert(self.open_path() =~= old(self).open_path().push(n@));
                Ok(true)
            },
            XmlEvent::Text(t) => {
                let value = trim_chars(&chars_of(t.as_str()));
                if value.len() > 0 && self.path.len() > 0 {
                    let key = join_path(&self.path);
                    self.values.insert(key, string_from_chars(&value));
                }
                Ok(true)
            },
            XmlEvent::End => {
                if self.path.len() > 0 {
                    self.path.pop();
                    assert(self.open_path() =~= old(self).open_path().drop_last());
                }
                Ok(true)
            },
            XmlEvent::Eof => Ok(false),
            XmlEvent::Other => Ok(true),
        }
    }
}

/// The XML pull reader of `quick_xml`, reading from a byte slice.
#[verifier::external_type_specification]
#[verifier::external_body]
#[verifier::reject_recursive_types(R)]
pub struct ExXmlReader<R>(quick_xml::Reader<R>);

/// A `quick_xml` reader over a document, with the document and the number
/// of events read from it so far.
struct XmlEventSource<'a> {
    reader: quick_xml::Reader<&'a [u8]>,
    document: Ghost<Seq<char>>,
    events_read: Ghost<nat>,
}

impl<'a> View for XmlEventSource<'a> {
    type V = (Seq<char>, nat);

    /// The document and the number of events read from it.
    closed spec fn view(&self) -> (Seq<char>, nat) {
        (self.document@, self.events_read@)
    }
}

/// The result of the `index`-th read (counted from zero) of a `quick_xml`
/// reader set to trim text, over `document`, as plain values: the event,
/// or the reader's error message.
pub uninterp spec fn xml_event_at(document: Seq<char>, index: nat) -> core::result::Result<XmlEventModel, Seq<char>>;

/// A read's result as plain values.
pub open spec fn event_result_model(r: core::result::Result<XmlEvent, String>) -> core::result::Result<XmlEventModel, Seq<char>> {
    match r {
        Ok(e) => Ok(e@),
        Err(m) => Err(m@),
    }
}

/// `quick_xml::Reader::from_str`, configured (through `config_mut`) to
/// trim white space around text: a reader over `xml` that has read
/// nothing yet.
#[verifier::external_body]
fn open_xml_source<'a>(xml: &'a str) -> (r: XmlEventSource<'a>)
    ensures
        r@ == (xml@, 0nat),
{
    let mut reader = quick_xml::Reader::from_str(xml);
    reader.config_mut().trim_text(true);
    XmlEventSource { reader, document: Ghost(xml@), events_read: Ghost(0nat) }
}

/// `quick_xml::Reader::read_event`, with the event copied into plain
/// values: a start tag's name and its attributes (key and normalized value,
/// or `None` for an attribute the reader could not split off), a text's
/// content, end tags and the end of the document; reader errors become
/// their message. The reader's output is a function of the document and
/// of how many events were read before, which `xml_event_at` names; this
/// read is one more.
#[verifier::external_body]
fn read_xml_event(source: &mut XmlEventSource) -> (r: core::result::Result<XmlEvent, String>)
    ensures
        event_result_model(r) == xml_event_at(old(source)@.0, old(source)@.1),
        final(source)@ == (old(source)@.0, old(source)@.1 + 1),
{
    let event = match source.reader.read_event().map_err(|e| e.to_string())? {
        Event::Start(e) => XmlEvent::Start(e.name().0.to_owned(), e.attributes().map(|a| a.ok().map(|a| XmlAttribute {
            key: a.key.0.to_owned(),
            value: a.normalized_value(XmlVersion::Implicit1_0).map(|v| v.into_owned()).map_err(|e| e.to_string()),
        })).collect()),
        Event::Text(t) => XmlEvent::Text(t.xml10_content().into_owned()),
        Event::End(_) => XmlEvent::End,
        Event::Eof => XmlEvent::Eof,
        _ => XmlEvent::Other,
    };
    Ok(event)
}

/// The message given when a document yields more events than it has
/// characters, which no document does.
pub open spec fn too_many_events_text() -> Seq<char> {
    "XML document has more events than characters"@
}

/// Reading `document` from its `index`-th event on, with open elements
/// `path` and values `collected` so far, allowing `fuel` more events
/// before the end: the values once the document ends, or the first
/// message of the reader or of a refused start tag.
pub open spec fn spec_flatten_from(
    document: Seq<char>,
    index: nat,
    path: Seq<Seq<char>>,
    collected: Seq<(Seq<char>, Seq<char>)>,
    fuel: nat,
) -> core::result::Result<Seq<(Seq<char>, Seq<char>)>, Seq<char>>
    decreases fuel,
{
    match xml_event_at(document, index) {
        Err(m) => Err(m),
        Ok(event) => match spec_flatten_step(path, collected, event) {
            Err(m) => Err(m),
            Ok((p, c, more)) => if !more {
                Ok(c)
            } else if fuel == 0 {
                Err(too_many_events_text())
            } else {
                spec_flatten_from(document, index + 1, p, c, (fuel - 1) as nat)
            },
        },
    }
}

/// The path/value pairs of an XML document, or the message of its first
/// problem.
pub open spec fn spec_flatten_xml(document: Seq<char>) -> core::result::Result<Seq<(Seq<char>, Seq<char>)>, Seq<char>> {
    spec_flatten_from(document, 0, Seq::empty(), Seq::empty(), document.len())
}

/// Reads an XML document into path/value pairs: each non-blank text is
/// stored under the dot-joined names of the elements around it, a
/// `laser` element being named `laser#<id>` by its `id` attribute.
/// Reader errors are reported as XML errors. A document yields at most
/// one event per character before its end, which bounds the reading.
pub fn flatten_xml(xml: &str) -> (r: Result<XmlValues>)
    ensures
        match spec_flatten_xml(xml@) {
            Ok(values) => r matches Ok(v) && v@ == values,
            Err(m) => r matches Err(QuanergyError::Xml(e)) && e@ == m,
        },
        r matches Ok(v) ==> forall|i: int| 0 <= i < v@.len() ==> #[trigger] v@[i].1.len() > 0,
{
    let mut source = open_xml_source(xml);
    let mut flat = XmlFlattener::new();
    let mut remaining: usize = xml.unicode_len();
    loop
        invariant
            source@.0 == xml@,
            spec_flatten_xml(xml@) == spec_flatten_from(xml@, source@.1, flat.open_path(), flat.collected(), remaining as nat),
            forall|i: int| 0 <= i < flat.collected().len() ==> #[trigger] flat.collected()[i].1.len() > 0,
        decreases remaining,
    {
        match read_xml_event(&mut source) {
            Err(message) => {
                return Err(QuanergyError::Xml(message));
            },
            Ok(event) => {
                match flat.step(event) {
                    Err(e) => {
                        return Err(e);
                    },
                    Ok(more) => {
                        if !more {
                            return Ok(flat.into_values());
                        }
                    },
                }
            },
        }
        if remaining == 0 {
            let m = String::from_str("XML document has more events than characters");
            proof {
                reveal_strlit("XML document has more events than characters");
            }
            return Err(QuanergyError::Xml(m));
        }
        remaining = remaining - 1;
    }
}

/// What the settings file asks of encoder correction.
#[derive(Debug, Copy, Clone, PartialEq, Eq, Structural)]
pub enum EncoderChoice {
    /// The file does not change the encoder mode.
    Unchanged,
    /// Calibrate the encoder from the data.
    Automatic,
    /// Use the amplitude and phase the file gives.
    Manual,
}

/// The integer and text settings of a sensor pipeline (the metric ones,
/// distances and angles, are kept beside it by the application).
#[derive(Debug, Clone)]
pub struct PipelineSettings {
    pub host: String,
    pub frame_id: String,
    pub return_selection: ReturnSelection,
    pub return_selection_set: bool,
    pub min_cloud_size: usize,
    pub max_cloud_size: usize,
    /// Per ring, the weakest intensity that is kept.
    pub ring_min_intensity: Vec<u8>,
    pub strict: bool,
}

/// The value stored for the first key, else for the second.
pub open spec fn spec_fallback(values: Seq<(Seq<char>, Seq<char>)>, k1: Seq<char>, k2: Seq<char>) -> Option<Seq<char>> {
    match spec_lookup(values, k1) {
        Some(v) => Some(v),
        None => spec_lookup(values, k2),
    }
}

/// A text setting after reading `key`: replaced by a non-empty stored
/// value, else kept.
pub open spec fn spec_text_setting(values: Seq<(Seq<char>, Seq<char>)>, key: Seq<char>, current: Seq<char>) -> Seq<char> {
    match spec_lookup(values, key) {
        Some(v) => if v.len() > 0 { v } else { current },
        None => current,
    }
}

/// An unsigned setting after reading an optional stored value: replaced
/// when the value parses (no larger than `max`), else kept.
pub open spec fn spec_unsigned_setting(stored: Option<Seq<char>>, max: int, current: int) -> int {
    match stored {
        Some(v) => match spec_optional_unsigned(v, max) {
            Some(n) => n,
            None => current,
        },
        None => current,
    }
}

/// A flag stored under `key` that is on only when it reads as true.
pub open spec fn spec_flag(values: Seq<(Seq<char>, Seq<char>)>, key: Seq<char>) -> bool {
    match spec_lookup(values, key) {
        Some(v) => spec_optional_bool(v) == Some(true),
        None => false,
    }
}

/// The key of ring `i`'s minimum intensity in a settings file.
pub open spec fn intensity_key(i: int) -> Seq<char> {
    "Settings.RingFilter.intensity"@ + spec_decimal(i as nat)
}

/// The key of ring `i`'s minimum intensity, as the sample files write it.
pub open spec fn sample_intensity_key(i: int) -> Seq<char> {
    "Settings.RingFilter.Intensity"@ + spec_decimal(i as nat)
}

/// The encoder choice a settings file makes: calibrating wins over
/// overriding the parameters.
pub open spec fn spec_encoder_choice(values: Seq<(Seq<char>, Seq<char>)>) -> EncoderChoice {
    if spec_flag(values, "Settings.EncoderCorrection.calibrate"@) {
        EncoderChoice::Automatic
    } else if spec_flag(values, "Settings.EncoderCorrection.override"@) {
        EncoderChoice::Manual
    } else {
        EncoderChoice::Unchanged
    }
}

/// How a settings flag reads its stored text, once trimmed and
/// lower-cased: `true`, `1` or `yes` turn it on; `false`, `0` or `no`, an
/// unreadable text or no stored text leave it off.
pub proof fn lemma_flag_reads_text(values: Seq<(Seq<char>, Seq<char>)>, key: Seq<char>)
    ensures
        spec_lookup(values, key) is None ==> !spec_flag(values, key),
        spec_lookup(values, key) matches Some(v) ==> ({
            let t = spec_ascii_lower_seq(spec_trim(v));
            &&& (t == "true"@ || t == "1"@ || t == "yes"@) ==> spec_flag(values, key)
            &&& (t == "false"@ || t == "0"@ || t == "no"@) ==> !spec_flag(values, key)
            &&& spec_flag(values, key) ==> (t == "true"@ || t == "1"@ || t == "yes"@)
        }),
{
    reveal_strlit("true");
    reveal_strlit("1");
    reveal_strlit("yes");
    reveal_strlit("false");
    reveal_strlit("0");
    reveal_strlit("no");
    assert("true"@.len() == 4 && "false"@.len() == 5 && "yes"@.len() == 3 && "no"@.len() == 2);
    assert("1"@[0] != "0"@[0]);
}

/// What a settings file asks of encoder correction, read from its flags:
/// a `calibrate` flag whose text reads true asks for calibration; one that
/// reads false (or is absent or unreadable) never does, and then an
/// `override` flag that reads true asks for the manual parameters, and
/// otherwise nothing changes.
pub proof fn lemma_encoder_choice_reads_flags(values: Seq<(Seq<char>, Seq<char>)>)
    ensures
        ({
            let cal = spec_lookup(values, "Settings.EncoderCorrection.calibrate"@);
            let ovr = spec_lookup(values, "Settings.EncoderCorrection.override"@);
            let reads_true = |v: Seq<char>| {
                let t = spec_ascii_lower_seq(spec_trim(v));
                t == "true"@ || t == "1"@ || t == "yes"@
            };
            &&& (cal matches Some(v) && reads_true(v)) ==> spec_encoder_choice(values) == EncoderChoice::Automatic
            &&& !(cal matches Some(v) && reads_true(v)) ==> spec_encoder_choice(values) != EncoderChoice::Automatic
            &&& (!(cal matches Some(v) && reads_true(v)) && (ovr matches Some(w) && reads_true(w)))
                ==> spec_encoder_choice(values) == EncoderChoice::Manual
            &&& (!(cal matches Some(v) && reads_true(v)) && !(ovr matches Some(w) && reads_true(w)))
                ==> spec_encoder_choice(values) == EncoderChoice::Unchanged
        }),
{
    lemma_flag_reads_text(values, "Settings.EncoderCorrection.calibrate"@);
    lemma_flag_reads_text(values, "Settings.EncoderCorrection.override"@);
}

impl Default for PipelineSettings {
    fn default() -> (r: Self)
        ensures
            r.host@ == Seq::<char>::empty(),
            r.frame_id@ == "quanergy"@,
            r.return_selection == ReturnSelection::Single(0),
            !r.return_selection_set,
            r.min_cloud_size == 1,
            r.max_cloud_size == 1_000_000,
            r.ring_min_intensity@ == Seq::new(M_SERIES_NUM_LASERS as nat, |i: int| 0u8),
            !r.strict,
    {
        let mut ring: Vec<u8> = Vec::new();
        let mut i: usize = 0;
        while i < M_SERIES_NUM_LASERS
            invariant
                i <= M_SERIES_NUM_LASERS,
                ring@ =~= Seq::new(i as nat, |k: int| 0u8),
            decreases M_SERIES_NUM_LASERS - i,
        {
            ring.push(0);
            i = i + 1;
        }
        PipelineSettings {
            host: String::new(),
            frame_id: String::from_str("quanergy"),
            return_selection: ReturnSelection::Single(0),
            return_selection_set: false,
            min_cloud_size: 1,
            max_cloud_size: 1_000_000,
            ring_min_intensity: ring,
            strict: false,
        }
    }
}

/// The `usize` setting stored under `key`, when it parses.
fn lookup_usize(values: &XmlValues, key: &str) -> (r: Option<usize>)
    ensures
        match spec_lookup(values@, key@) {
            Some(v) => match spec_optional_unsigned(v, usize::MAX as int) {
                Some(n) => r == Some(n as usize) && 0 <= n <= usize::MAX,
                None => r is None,
            },
            None => r is None,
        },
{
    match values.get(key) {
        Some(v) => parse_optional_usize(v.as_str()),
        None => None,
    }
}

/// The flag stored under `key`, off unless it reads as true.
fn lookup_flag(values: &XmlValues, key: &str) -> (r: bool)
    ensures
        r == spec_flag(values@, key@),
{
    match values.get(key) {
        Some(v) => match parse_optional_bool(v.as_str()) {
            Some(b) => b,
            None => false,
        },
        None => false,
    }
}

/// A key made of a literal prefix and a ring number.
fn ring_key(prefix: &str, ring: usize) -> (r: String)
    ensures
        r@ == prefix@ + spec_decimal(ring as nat),
{
    let mut k = String::from_str(prefix);
    push_decimal(&mut k, ring as u64);
    k
}

impl PipelineSettings {
    /// Applies the integer and text settings of a settings file (as
    /// flattened XML): host, frame name, return selection, cloud size
    /// limits and ring intensity thresholds, each only when present and
    /// readable. A return selection that cannot be read is an error, and
    /// then only the host and the frame name have been applied. On success
    /// the result is what the file asks of encoder correction.
    pub fn apply_settings_xml(&mut self, values: &XmlValues) -> (r: Result<EncoderChoice>)
        requires
            old(self).ring_min_intensity.len() == M_SERIES_NUM_LASERS,
        ensures
            final(self).host@ == spec_text_setting(values@, "Settings.host"@, old(self).host@),
            final(self).frame_id@ == spec_text_setting(values@, "Settings.frame"@, old(self).frame_id@),
            final(self).strict == old(self).strict,
            final(self).ring_min_intensity.len() == M_SERIES_NUM_LASERS,
            ({
                let ret = spec_lookup(values@, "Settings.return"@);
                ret matches Some(v) && v.len() > 0 && spec_return_selection(v) is None
            }) ==> {
                &&& r matches Err(QuanergyError::InvalidReturnSelection(t))
                    && spec_lookup(values@, "Settings.return"@) == Some(t@)
                &&& final(self).return_selection == old(self).return_selection
                &&& final(self).return_selection_set == old(self).return_selection_set
                &&& final(self).min_cloud_size == old(self).min_cloud_size
                &&& final(self).max_cloud_size == old(self).max_cloud_size
                &&& final(self).ring_min_intensity@ == old(self).ring_min_intensity@
            },
            !({
                let ret = spec_lookup(values@, "Settings.return"@);
                ret matches Some(v) && v.len() > 0 && spec_return_selection(v) is None
            }) ==> {
                &&& r == Ok::<EncoderChoice, QuanergyError>(spec_encoder_choice(values@))
                &&& match spec_lookup(values@, "Settings.return"@) {
                    Some(v) => if v.len() > 0 {
                        spec_return_selection(v) == Some(final(self).return_selection) && final(self).return_selection_set
                    } else {
                        final(self).return_selection == old(self).return_selection
                            && final(self).return_selection_set == old(self).return_selection_set
                    },
                    None => final(self).return_selection == old(self).return_selection
                        && final(self).return_selection_set == old(self).return_selection_set,
                }
                &&& final(self).min_cloud_size == spec_unsigned_setting(
                    spec_lookup(values@, "Settings.minCloudSize"@), usize::MAX as int, old(self).min_cloud_size as int)
                &&& final(self).max_cloud_size == spec_unsigned_setting(
                    spec_lookup(values@, "Settings.maxCloudSize"@), usize::MAX as int, old(self).max_cloud_size as int)
                &&& forall|i: int| 0 <= i < M_SERIES_NUM_LASERS ==> #[trigger] final(self).ring_min_intensity@[i]
                    == spec_unsigned_setting(spec_fallback(values@, intensity_key(i), sample_intensity_key(i)),
                        u8::MAX as int, old(self).ring_min_intensity@[i] as int)
            },
    {
        match values.get("Settings.host") {
            Some(v) => {
                if !v.as_str().is_empty() {
                    self.host = v.clone();
                }
            },
            None => {},
        }
        match values.get("Settings.frame") {
            Some(v) => {
                if !v.as_str().is_empty() {
                    self.frame_id = v.clone();
                }
            },
            None => {},
        }
        match values.get("Settings.return") {
            Some(v) => {
                if !v.as_str().is_empty() {
                    match ReturnSelection::parse(v.as_str()) {
                        Ok(sel) => {
                            self.return_selection = sel;
                            self.return_selection_set = true;
                        },
                        Err(e) => {
                            return Err(e);
                        },
                    }
                }
            },
            None => {},
        }
        let calibrate = lookup_flag(values, "Settings.EncoderCorrection.calibrate");
        let override_params = lookup_flag(values, "Settings.EncoderCorrection.override");
        let choice = if calibrate {
            EncoderChoice::Automatic
        } else if override_params {
            EncoderChoice::Manual
        } else {
            EncoderChoice::Unchanged
        };
        match lookup_usize(values, "Settings.minCloudSize") {
            Some(n) => {
                self.min_cloud_size = n;
            },
            None => {},
        }
        match lookup_usize(values, "Settings.maxCloudSize") {
            Some(n) => {
                self.max_cloud_size = n;
            },
            None => {},
        }
        let ghost before = self.ring_min_intensity@;
        let ghost pre = *self;
        let mut i: usize = 0;
        while i < M_SERIES_NUM_LASERS
            invariant
                i <= M_SERIES_NUM_LASERS,
                self.host == pre.host,
                self.frame_id == pre.frame_id,
                self.return_selection == pre.return_selection,
                self.return_selection_set == pre.return_selection_set,
                self.min_cloud_size == pre.min_cloud_size,
                self.max_cloud_size == pre.max_cloud_size,
                self.strict == pre.strict,
                self.ring_min_intensity.len() == M_SERIES_NUM_LASERS,
                before.len() == M_SERIES_NUM_LASERS,
                forall|k: int| 0 <= k < i ==> #[trigger] self.ring_min_intensity@[k]
                    == spec_unsigned_setting(spec_fallback(values@, intensity_key(k), sample_intensity_key(k)),
                        u8::MAX as int, before[k] as int),
                forall|k: int| i <= k < M_SERIES_NUM_LASERS ==> #[trigger] self.ring_min_intensity@[k] == before[k],
            decreases M_SERIES_NUM_LASERS - i,
        {
            let lower = ring_key("Settings.RingFilter.intensity", i);
            let sample = ring_key("Settings.RingFilter.Intensity", i);
            match get_case_fallback(values, lower.as_str(), sample.as_str()) {
                Some(v) => match parse_optional_u8(v.as_str()) {
                    Some(n) => {
                        self.ring_min_intensity.set(i, n);
                    },
                    None => {},
                },
                None => {},
            }
            i = i + 1;
        }
        Ok(choice)
    }
}

/// The sensor model a flattened device description names under
/// `DeviceInfo.model`; a description without one is refused.
pub fn device_model(values: &XmlValues) -> (r: Result<SensorModel>)
    ensures
        match spec_lookup(values@, "DeviceInfo.model"@) {
            Some(v) => r matches Ok(m) && (spec_sensor_model_kind(v) == 0 ==> m is M8)
                && (spec_sensor_model_kind(v) == 1 ==> m is Mq8) && (spec_sensor_model_kind(v) == 2 ==> m is M1)
                && (spec_sensor_model_kind(v) == 3 ==> (m matches SensorModel::Other(s) && s@ == v)),
            None => r matches Err(QuanergyError::Config(_)),
        },
{
    match values.get("DeviceInfo.model") {
        Some(v) => Ok(SensorModel::parse(v.as_str())),
        None => Err(QuanergyError::Config(String::from_str("deviceInfo missing DeviceInfo.model"))),
    }
}

} // verus!
