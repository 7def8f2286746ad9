//! The tokens of an XML document, as the state machine of the importer
//! takes them.

use vstd::prelude::*;

verus! {

/// An attribute of a tag: its name, and its value as it is written in the
/// document.
#[derive(Debug)]
pub struct XmlAttribute {
    pub key: String,
    pub value: String,
}

/// A tag: its name and its attributes in order.
#[derive(Debug)]
pub struct XmlTag {
    pub name: String,
    pub attributes: Vec<XmlAttribute>,
}

/// One token of an XML document.
#[derive(Debug)]
pub enum XmlToken {
    /// An opening tag.
    Start(XmlTag),
    /// A tag that opens and closes at once.
    Empty(XmlTag),
    /// A closing tag, with its name.
    End(String),
    /// The end of the document.
    Eof,
    /// Text, a comment, a declaration or the like.
    Other,
    /// A piece of the document that is not well-formed.
    Malformed,
}

/// What a tag holds.
pub struct TagView {
    pub name: Seq<char>,
    pub attributes: Seq<(Seq<char>, Seq<char>)>,
}

/// What a token holds.
pub enum TokenView {
    Start(TagView),
    Empty(TagView),
    End(Seq<char>),
    Eof,
    Other,
    Malformed,
}

/// What a run of tag attributes holds.
pub open spec fn tag_attributes_view(attributes: Seq<XmlAttribute>) -> Seq<(Seq<char>, Seq<char>)> {
    Seq::new(attributes.len(), |i: int| (attributes[i].key@, attributes[i].value@))
}

impl View for XmlTag {
    type V = TagView;

    open spec fn view(&self) -> TagView {
        TagView { name: self.name@, attributes: tag_attributes_view(self.attributes@) }
    }
}

impl View for XmlToken {
    type V = TokenView;

    open spec fn view(&self) -> TokenView {
        match self {
            XmlToken::Start(t) => TokenView::Start(t@),
            XmlToken::Empty(t) => TokenView::Empty(t@),
            XmlToken::End(n) => TokenView::End(n@),
            XmlToken::Eof => TokenView::Eof,
            XmlToken::Other => TokenView::Other,
            XmlToken::Malformed => TokenView::Malformed,
        }
    }
}

impl Clone for XmlAttribute {
    fn clone(&self) -> (r: Self)
        ensures
            r.key@ == self.key@,
            r.value@ == self.value@,
    {
        XmlAttribute { key: self.key.clone(), value: self.value.clone() }
    }
}

impl Clone for XmlTag {
    fn clone(&self) -> (r: Self)
        ensures
            r@ == self@,
    {
        let mut attributes: Vec<XmlAttribute> = Vec::new();
        let mut i: usize = 0;
        while i < self.attributes.len()
            invariant
                i <= self.attributes.len(),
                tag_attributes_view(attributes@) == tag_attributes_view(self.attributes@).take(
                    i as int,
                ),
            decreases self.attributes.len() - i,
        {
            let attribute = self.attributes[i].clone();
            proof {
                let all = tag_attributes_view(self.attributes@);
                assert(tag_attributes_view(attributes@.push(attribute)) == tag_attributes_view(
                    attributes@,
                ).push((attribute.key@, attribute.value@)));
                assert(all.take(i + 1) == all.take(i as int).push(all[i as int]));
            }
            attributes.push(attribute);
            i += 1;
        }
        assert(tag_attributes_view(self.attributes@).take(self.attributes.len() as int)
            == tag_attributes_view(self.attributes@));
        XmlTag { name: self.name.clone(), attributes }
    }
}

impl Clone for XmlToken {
    fn clone(&self) -> (r: Self)
        ensures
            r@ == self@,
    {
        match self {
            XmlToken::Start(t) => XmlToken::Start(t.clone()),
            XmlToken::Empty(t) => XmlToken::Empty(t.clone()),
            XmlToken::End(n) => XmlToken::End(n.clone()),
            XmlToken::Eof => XmlToken::Eof,
            XmlToken::Other => XmlToken::Other,
            XmlToken::Malformed => XmlToken::Malformed,
        }
    }
}

/// The value of the first attribute of the given name at or after `from`;
/// the empty text where there is none.
pub open spec fn tag_field(attributes: Seq<(Seq<char>, Seq<char>)>, name: Seq<char>, from: int)
    -> Seq<char>
    decreases attributes.len() - from,
{
    if from < 0 || from >= attributes.len() {
        Seq::empty()
    } else if attributes[from].0 == name {
        attributes[from].1
    } else {
        tag_field(attributes, name, from + 1)
    }
}

impl XmlTag {
    /// A copy of the value of the first attribute of the given name; the
    /// empty text where there is none.
    pub fn field(&self, name: &str) -> (r: String)
        ensures
            r@ == tag_field(self@.attributes, name@, 0),
    {
        let wanted = name.to_owned();
        let mut i: usize = 0;
        while i < self.attributes.len()
            invariant
                i <= self.attributes.len(),
                wanted@ == name@,
                tag_field(self@.attributes, name@, 0) == tag_field(
                    self@.attributes,
                    name@,
                    i as int,
                ),
            decreases self.attributes.len() - i,
        {
            if self.attributes[i].key == wanted {
                return self.attributes[i].value.clone();
            }
            i += 1;
        }
        String::new()
    }
}

/// Trusted: `quick_xml::Reader`, a reader of the events of an XML document.
/// Nothing is known of what is inside it.
#[verifier::external_type_specification]
#[verifier::external_body]
#[verifier::reject_recursive_types(R)]
pub struct ExReader<R>(quick_xml::Reader<R>);

/// Trusted: `quick_xml::events::BytesStart`, a tag as it was read. Nothing is
/// known of what is inside it.
#[verifier::external_type_specification]
#[verifier::external_body]
pub struct ExBytesStart<'a>(quick_xml::events::BytesStart<'a>);

/// What a reader gives at one step, with a tag still in the form in which
/// it was read.
pub(crate) enum RawToken<'a> {
    Start(quick_xml::events::BytesStart<'a>),
    Empty(quick_xml::events::BytesStart<'a>),
    End(String),
    Eof,
    Other,
    Malformed,
}

/// What a reader gives at one step: of a tag its name and what it has in the
/// place of attributes, in order, each an attribute with its name and its
/// value as written, or `None` for a piece that is no attribute.
pub enum RawView {
    Start(Seq<char>, Seq<Option<(Seq<char>, Seq<char>)>>),
    Empty(Seq<char>, Seq<Option<(Seq<char>, Seq<char>)>>),
    End(Seq<char>),
    Eof,
    Other,
    Malformed,
}

/// The name of a tag as it is written.
pub uninterp spec fn tag_label(tag: quick_xml::events::BytesStart) -> Seq<char>;

/// What a tag has in the place of attributes, in order: each an attribute
/// with its name and its value as written, or `None` for a piece that is no
/// attribute.
pub uninterp spec fn tag_items(tag: quick_xml::events::BytesStart) -> Seq<
    Option<(Seq<char>, Seq<char>)>,
>;

/// What the read after the next `k` reads of a reader gives.
pub uninterp spec fn reader_item(reader: quick_xml::Reader<&[u8]>, k: nat) -> RawView;

/// What the read after the first `k` reads of a text gives.
pub uninterp spec fn document_item(text: Seq<char>, k: nat) -> RawView;

/// The number of bytes of its document that a reader has behind it after
/// its next `k` reads; with `k` zero, the number it has behind it now.
pub uninterp spec fn reader_offset(reader: quick_xml::Reader<&[u8]>, k: nat) -> u64;

/// The number of bytes of a text that a reader of it has behind it after its
/// first `k` reads.
pub uninterp spec fn document_offset(text: Seq<char>, k: nat) -> u64;

/// What a reader gave at one step, with the name and the attributes of a
/// tag told.
pub(crate) open spec fn raw_view(raw: RawToken) -> RawView {
    match raw {
        RawToken::Start(t) => RawView::Start(tag_label(t), tag_items(t)),
        RawToken::Empty(t) => RawView::Empty(tag_label(t), tag_items(t)),
        RawToken::End(name) => RawView::End(name@),
        RawToken::Eof => RawView::Eof,
        RawToken::Other => RawView::Other,
        RawToken::Malformed => RawView::Malformed,
    }
}

/// What a run of pieces in the place of attributes holds.
pub open spec fn items_view(items: Seq<Option<XmlAttribute>>) -> Seq<
    Option<(Seq<char>, Seq<char>)>,
> {
    Seq::new(
        items.len(),
        |i: int|
            match items[i] {
                Some(a) => Some((a.key@, a.value@)),
                None => None,
            },
    )
}

/// Trusted: `quick_xml::Reader::from_str`, which makes a reader of the
/// events of a text. What its reads give, and where it stands after each of
/// them, is a function of the text alone.
#[verifier::external_body]
fn open_reader<'a>(text: &'a str) -> (r: quick_xml::Reader<&'a [u8]>)
    ensures
        forall|k: nat| #[trigger] reader_item(r, k) == document_item(text@, k),
        forall|k: nat| #[trigger] reader_offset(r, k) == document_offset(text@, k),
{
    quick_xml::Reader::from_str(text)
}

/// Trusted: `quick_xml::Reader::read_event`, which reads the next event of
/// the document, or fails where the document is not well-formed. What it
/// gives is a function of the reader alone: the first of what the reader had
/// to give, and the reader has the rest to give and stands where it was to
/// stand after one read. Of a closing tag the name is handed on, as
/// `quick_xml::events::BytesEnd::name` gives it.
#[verifier::external_body]
fn read_event<'a>(reader: &mut quick_xml::Reader<&'a [u8]>) -> (r: RawToken<'a>)
    ensures
        raw_view(r) == reader_item(*old(reader), 0),
        forall|k: nat|
            #[trigger] reader_item(*final(reader), k) == reader_item(*old(reader), k + 1),
        forall|k: nat|
            #[trigger] reader_offset(*final(reader), k) == reader_offset(*old(reader), k + 1),
{
    match reader.read_event() {
        Ok(quick_xml::events::Event::Start(t)) => RawToken::Start(t),
        Ok(quick_xml::events::Event::Empty(t)) => RawToken::Empty(t),
        Ok(quick_xml::events::Event::End(t)) => RawToken::End(t.name().0.to_owned()),
        Ok(quick_xml::events::Event::Eof) => RawToken::Eof,
        Ok(_) => RawToken::Other,
        Err(_) => RawToken::Malformed,
    }
}

/// Trusted: `quick_xml::Reader::buffer_position`, the number of bytes of the
/// document that lie before what is still to be read. It is a function of
/// the reader alone.
#[verifier::external_body]
fn reader_position<'a>(reader: &quick_xml::Reader<&'a [u8]>) -> (r: u64)
    ensures
        r == reader_offset(*reader, 0),
{
    reader.buffer_position()
}

/// Trusted: `quick_xml::events::BytesStart::name`, the name of a tag as it
/// is written. It is a function of the tag alone.
#[verifier::external_body]
fn tag_name<'a>(tag: &quick_xml::events::BytesStart<'a>) -> (r: String)
    ensures
        r@ == tag_label(*tag),
{
    tag.name().0.to_owned()
}

/// Trusted: `quick_xml::events::BytesStart::attributes`, which hands out
/// what the tag has in the place of attributes, in order: each an attribute
/// with its name and its value as written, or an error for a piece that is
/// no attribute, handed on as `None`. It is a function of the tag alone.
#[verifier::external_body]
fn tag_attributes<'a>(tag: &quick_xml::events::BytesStart<'a>) -> (r: Vec<Option<XmlAttribute>>)
    ensures
        items_view(r@) == tag_items(*tag),
{
    tag.attributes().map(
        |a| a.ok().map(|a| XmlAttribute { key: a.key.0.to_owned(), value: a.value.into_owned() }),
    ).collect()
}

/// The attributes among the first `n` pieces in the place of attributes,
/// where all of these are attributes; `None` where one of them is not.
pub open spec fn attributes_of_items(items: Seq<Option<(Seq<char>, Seq<char>)>>, n: int)
    -> Option<Seq<(Seq<char>, Seq<char>)>>
    decreases n,
{
    if n <= 0 || n > items.len() {
        Some(Seq::empty())
    } else {
        match (attributes_of_items(items, n - 1), items[n - 1]) {
            (Some(before), Some(a)) => Some(before.push(a)),
            _ => None,
        }
    }
}

/// The tag of the given name with what stands in the place of its
/// attributes: there is one where all of that are attributes.
pub open spec fn tag_of_items(name: Seq<char>, items: Seq<Option<(Seq<char>, Seq<char>)>>)
    -> Option<TagView> {
    match attributes_of_items(items, items.len() as int) {
        Some(attributes) => Some(TagView { name, attributes }),
        None => None,
    }
}

/// The token that a read gives: a tag with a piece in the place of an
/// attribute that is none counts as malformed.
pub open spec fn token_of_raw(raw: RawView) -> TokenView {
    match raw {
        RawView::Start(name, items) => match tag_of_items(name, items) {
            Some(tag) => TokenView::Start(tag),
            None => TokenView::Malformed,
        },
        RawView::Empty(name, items) => match tag_of_items(name, items) {
            Some(tag) => TokenView::Empty(tag),
            None => TokenView::Malformed,
        },
        RawView::End(name) => TokenView::End(name),
        RawView::Eof => TokenView::Eof,
        RawView::Other => TokenView::Other,
        RawView::Malformed => TokenView::Malformed,
    }
}

/// The tokens that the first `n` reads of a text give.
pub open spec fn document_tokens(text: Seq<char>, n: nat) -> Seq<TokenView> {
    Seq::new(n, |k: int| token_of_raw(document_item(text, k as nat)))
}

/// Whether reading goes on after a token: it does unless the token is the
/// end of the document, or the reader has not got ahead by reading it.
pub open spec fn goes_on(token: TokenView, position: u64, last: u64) -> bool {
    !(token is Eof) && position > last
}

/// Decides whether reading goes on after a token, from the token, from where
/// the reader stands after it and from where it stood before.
pub fn reading_goes_on(token: &XmlToken, position: u64, last: u64) -> (r: bool)
    ensures
        r == goes_on(token@, position, last),
{
    let at_end = match token {
        XmlToken::Eof => true,
        _ => false,
    };
    !at_end && position > last
}

/// Whether reading a text goes on after its `k`-th read, where `k` is one
/// or more.
pub open spec fn goes_on_after(text: Seq<char>, k: nat) -> bool {
    goes_on(
        token_of_raw(document_item(text, (k - 1) as nat)),
        document_offset(text, k),
        document_offset(text, (k - 1) as nat),
    )
}

/// Whether a tag, or the lack of one, is the wanted one.
pub open spec fn tag_matches(r: Option<XmlTag>, wanted: Option<TagView>) -> bool {
    match wanted {
        Some(w) => r matches Some(t) && t@ == w,
        None => r is None,
    }
}

/// Makes a tag of its name and of what it has in the place of attributes.
/// There is a tag where all of that are attributes.
pub fn tag_from_items(name: String, items: Vec<Option<XmlAttribute>>) -> (r: Option<XmlTag>)
    ensures
        tag_matches(r, tag_of_items(name@, items_view(items@))),
{
    let ghost all = items_view(items@);
    let ghost given = items@;
    let mut rest = items;
    let n = rest.len();
    let mut reversed: Vec<XmlAttribute> = Vec::new();
    let mut i: usize = 0;
    // Take the pieces from the end, so that each is moved out of the run.
    while i < n
        invariant
            i <= n,
            n == all.len(),
            all == items_view(given),
            given == items@,
            rest@.len() == n - i,
            items_view(rest@) == all.take(n - i),
            reversed@.len() == i,
            forall|k: int|
                0 <= k < i ==> all[n - 1 - k] == Some(
                    ((#[trigger] reversed@[k]).key@, reversed@[k].value@),
                ),
        decreases n - i,
    {
        let ghost before = rest@;
        let item = rest.pop().unwrap();
        proof {
            assert(items_view(before)[n - i - 1] == all[n - i - 1]);
            assert(items_view(rest@) == all.take(n - i - 1));
        }
        match item {
            Some(a) => {
                reversed.push(a);
            },
            None => {
                proof {
                    assert(all[n - i - 1] is None);
                    lemma_none_among_items(all, n - i - 1, n as int);
                    assert(tag_of_items(name@, all) is None);
                }
                return None;
            },
        }
        i += 1;
    }
    let mut attributes: Vec<XmlAttribute> = Vec::new();
    let mut j: usize = 0;
    assert(attributes_of_items(all, 0) == Some(Seq::<(Seq<char>, Seq<char>)>::empty()));
    assert(tag_attributes_view(attributes@) == Seq::<(Seq<char>, Seq<char>)>::empty());
    while j < n
        invariant
            j <= n,
            n == all.len(),
            reversed@.len() == n - j,
            forall|k: int|
                0 <= k < n - j ==> all[n - 1 - k] == Some(
                    ((#[trigger] reversed@[k]).key@, reversed@[k].value@),
                ),
            attributes_of_items(all, j as int) == Some(tag_attributes_view(attributes@)),
        decreases n - j,
    {
        let ghost so_far = attributes@;
        let a = reversed.pop().unwrap();
        proof {
            assert(all[j as int] == Some((a.key@, a.value@)));
            assert(tag_attributes_view(so_far.push(a)) == tag_attributes_view(so_far).push(
                (a.key@, a.value@),
            ));
        }
        attributes.push(a);
        j += 1;
    }
    Some(XmlTag { name, attributes })
}

/// Where one of the pieces is no attribute, there are no attributes of the
/// pieces up to it and beyond.
pub proof fn lemma_none_among_items(
    items: Seq<Option<(Seq<char>, Seq<char>)>>,
    at: int,
    n: int,
)
    requires
        0 <= at < n <= items.len(),
        items[at] is None,
    ensures
        attributes_of_items(items, n) is None,
    decreases n,
{
    if at < n - 1 {
        lemma_none_among_items(items, at, n - 1);
    }
}

fn read_tag<'a>(tag: &quick_xml::events::BytesStart<'a>) -> (r: Option<XmlTag>)
    ensures
        tag_matches(r, tag_of_items(tag_label(*tag), tag_items(*tag))),
{
    tag_from_items(tag_name(tag), tag_attributes(tag))
}

/// A reader of the tokens of an XML text.
pub(crate) struct TokenReader<'a> {
    reader: quick_xml::Reader<&'a [u8]>,
}

impl<'a> TokenReader<'a> {
    /// The token that the read after the next `k` reads gives.
    pub(crate) closed spec fn token(self, k: nat) -> TokenView {
        token_of_raw(reader_item(self.reader, k))
    }

    /// The number of bytes of the text that lie before what is still to be
    /// read after the next `k` reads.
    pub(crate) closed spec fn offset(self, k: nat) -> u64 {
        reader_offset(self.reader, k)
    }

    /// A reader at the start of `text`.
    pub(crate) fn new(text: &'a str) -> (r: Self)
        ensures
            forall|k: nat| #[trigger] r.token(k) == token_of_raw(document_item(text@, k)),
            forall|k: nat| #[trigger] r.offset(k) == document_offset(text@, k),
    {
        TokenReader { reader: open_reader(text) }
    }

    /// Reads the next token. A tag with an attribute that is not well-formed
    /// counts as malformed.
    pub(crate) fn next_token(&mut self) -> (r: XmlToken)
        ensures
            r@ == old(self).token(0),
            forall|k: nat| #[trigger] final(self).token(k) == old(self).token(k + 1),
            forall|k: nat| #[trigger] final(self).offset(k) == old(self).offset(k + 1),
    {
        match read_event(&mut self.reader) {
            RawToken::Start(t) => match read_tag(&t) {
                Some(tag) => XmlToken::Start(tag),
                None => XmlToken::Malformed,
            },
            RawToken::Empty(t) => match read_tag(&t) {
                Some(tag) => XmlToken::Empty(tag),
                None => XmlToken::Malformed,
            },
            RawToken::End(name) => XmlToken::End(name),
            RawToken::Eof => XmlToken::Eof,
            RawToken::Other => XmlToken::Other,
            RawToken::Malformed => XmlToken::Malformed,
        }
    }

    /// How many bytes of the text lie before what is still to be read.
    pub(crate) fn position(&self) -> (r: u64)
        ensures
            r == self.offset(0),
    {
        reader_position(&self.reader)
    }
}

} // verus!
