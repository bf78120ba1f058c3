//! Views: the ordered content objects a page produces, down to styled spans.
use vstd::prelude::*;
use vstd::view::View as Model;

use crate::action::{Action, InternalKey};
use crate::page::{PageId, PageKey};
use crate::text::{fnv1a_64, linguate, linguate_spec, str_hash_64};

verus! {

pub const BOLD: u16 = 0b0000_0000_0001;
pub const DIM: u16 = 0b0000_0000_0010;
pub const ITALIC: u16 = 0b0000_0000_0100;
pub const UNDERLINE: u16 = 0b0000_0000_1000;
pub const SUPER_SCRIPT: u16 = 0b0000_0001_0000;
pub const SUBSCRIPT: u16 = 0b0000_0010_0000;
pub const REVERSED: u16 = 0b0000_0100_0000;
pub const HIDDEN: u16 = 0b0000_1000_0000;
pub const STRIKETHROUGH: u16 = 0b0001_0000_0000;

/// The union of all modifier flags.
pub const ALL_MODIFIERS: u16 = 0b0001_1111_1111;

/// A set of text modifiers, one bit per flag above.
#[derive(Debug, Default, Clone, Copy, PartialEq, Eq, Hash, Structural)]
pub struct Modifier {
    bits: u16,
}

impl Modifier {
    pub closed spec fn spec_bits(&self) -> u16 {
        self.bits
    }

    pub fn empty() -> (r: Modifier)
        ensures
            r.spec_bits() == 0,
    {
        Modifier { bits: 0 }
    }

    /// Keeps only the bits that name a flag.
    pub fn from_bits_truncate(bits: u16) -> (r: Modifier)
        ensures
            r.spec_bits() == bits & ALL_MODIFIERS,
    {
        Modifier { bits: bits & ALL_MODIFIERS }
    }

    pub fn bits(&self) -> (r: u16)
        ensures
            r == self.spec_bits(),
    {
        self.bits
    }

    pub fn contains(&self, flags: u16) -> (r: bool)
        ensures
            r == (self.spec_bits() & flags == flags),
    {
        self.bits & flags == flags
    }

    pub fn insert(&mut self, flags: u16)
        ensures
            final(self).spec_bits() == old(self).spec_bits() | (flags & ALL_MODIFIERS),
    {
        self.bits = self.bits | (flags & ALL_MODIFIERS);
    }

    pub fn remove(&mut self, flags: u16)
        ensures
            final(self).spec_bits() == old(self).spec_bits() & !flags,
    {
        self.bits = self.bits & !flags;
    }
}

/// A style preset.
#[derive(Debug, Default, Clone, Copy, PartialEq, Eq, Structural)]
pub enum SpanVariant {
    #[default]
    Plain,
    /// Underlined.
    Link,
    Muted,
    Secondary,
}

/// A run of text with an optional action and styling.
#[derive(Debug, Clone)]
pub struct Span<P> {
    pub action: Option<Action<P>>,
    pub content: String,
    pub variant: SpanVariant,
    pub modifiers: Modifier,
    pub style: std::collections::HashMap<String, String>,
    pub classes: Vec<String>,
}

impl<P> Span<P> {
    /// A plain span: no action, no styling.
    pub open spec fn is_plain(&self) -> bool {
        &&& self.action is None
        &&& self.variant == SpanVariant::Plain
        &&& self.modifiers.spec_bits() == 0
        &&& self.style@ == Map::<String, String>::empty()
        &&& self.classes@.len() == 0
    }

    pub fn new(s: String) -> (r: Span<P>)
        ensures
            r.content@ == s@,
            r.is_plain(),
    {
        Span {
            action: None,
            content: s,
            variant: SpanVariant::Plain,
            modifiers: Modifier::empty(),
            style: std::collections::HashMap::new(),
            classes: Vec::new(),
        }
    }

    /// A plain span holding the typographically refined text.
    pub fn from_lingual(s: String) -> (r: Span<P>)
        ensures
            r.content@ == linguate_spec(s@),
            r.is_plain(),
    {
        Span::new(s).lingual()
    }

    pub fn as_link(self) -> (r: Span<P>)
        ensures
            r == (Span { variant: SpanVariant::Link, ..self }),
    {
        let mut s = self;
        s.variant = SpanVariant::Link;
        s
    }

    pub fn with_action(self, action: Action<P>) -> (r: Span<P>)
        ensures
            r == (Span { action: Some(action), ..self }),
    {
        let mut s = self;
        s.action = Some(action);
        s
    }

    pub fn lingual(self) -> (r: Span<P>)
        ensures
            r.content@ == linguate_spec(self.content@),
            r.action == self.action,
            r.variant == self.variant,
            r.modifiers == self.modifiers,
            r.style == self.style,
            r.classes == self.classes,
    {
        let mut s = self;
        s.content = linguate(&s.content);
        s
    }

    pub fn with_text(self, text: String) -> (r: Span<P>)
        ensures
            r == (Span { content: text, ..self }),
    {
        let mut s = self;
        s.content = text;
        s
    }

    /// The empty plain span when `hide` holds, else the span unchanged.
    pub fn hide_if(self, hide: bool) -> (r: Span<P>)
        ensures
            hide ==> r.is_plain() && r.content@.len() == 0,
            !hide ==> r == self,
    {
        if hide {
            Span::default()
        } else {
            self
        }
    }
}

impl<P> Default for Span<P> {
    fn default() -> (r: Span<P>)
        ensures
            r.is_plain(),
            r.content@.len() == 0,
    {
        Span::new(String::new())
    }
}

/// Spans rendered in one wrapped line, joined without spacing.
#[derive(Debug, Clone)]
pub struct Line<P> {
    pub spans: Vec<Span<P>>,
}

/// The concatenated text of a sequence of spans.
pub open spec fn spans_text<P>(spans: Seq<Span<P>>) -> Seq<char>
    decreases spans.len(),
{
    if spans.len() == 0 {
        Seq::empty()
    } else {
        spans_text(spans.drop_last()) + spans.last().content@
    }
}

impl<P> Line<P> {
    pub fn new() -> (r: Line<P>)
        ensures
            r.spans@.len() == 0,
    {
        Line { spans: Vec::new() }
    }

    /// The line with each span's text typographically refined.
    pub fn from_lingual(v: Line<P>) -> (r: Line<P>)
        ensures
            r.spans@.len() == v.spans@.len(),
            forall|i: int|
                0 <= i < r.spans@.len() ==> {
                    &&& #[trigger] r.spans@[i].content@ == linguate_spec(v.spans@[i].content@)
                    &&& r.spans@[i].action == v.spans@[i].action
                    &&& r.spans@[i].variant == v.spans@[i].variant
                    &&& r.spans@[i].modifiers == v.spans@[i].modifiers
                    &&& r.spans@[i].style == v.spans@[i].style
                    &&& r.spans@[i].classes == v.spans@[i].classes
                },
    {
        let mut src = v.spans;
        let ghost orig = src@;
        let mut out: Vec<Span<P>> = Vec::new();
        while src.len() > 0
            invariant
                out@.len() + src@.len() == orig.len(),
                src@ == orig.skip(out@.len() as int),
                forall|i: int|
                    #![trigger out@[i]]
                    0 <= i < out@.len() ==> out@[i].content@ == linguate_spec(orig[i].content@)
                        && out@[i].action == orig[i].action && out@[i].variant == orig[i].variant
                        && out@[i].modifiers == orig[i].modifiers && out@[i].style == orig[i].style
                        && out@[i].classes == orig[i].classes,
            decreases src@.len(),
        {
            let s = src.remove(0);
            assert(orig[out@.len() as int] == s);
            let ghost before = out@;
            let t = s.lingual();
            out.push(t);
            assert(src@ =~= orig.skip(out@.len() as int));
            assert forall|i: int|
                #![trigger out@[i]]
                0 <= i < out@.len() implies out@[i].content@ == linguate_spec(orig[i].content@)
                    && out@[i].action == orig[i].action && out@[i].variant == orig[i].variant
                    && out@[i].modifiers == orig[i].modifiers && out@[i].style == orig[i].style
                    && out@[i].classes == orig[i].classes by {
                if i < before.len() {
                    assert(out@[i] == before[i]);
                } else {
                    assert(out@[i] == t);
                }
            }
        }
        Line { spans: out }
    }

    /// One plain span per string, in order.
    pub fn from_iter(items: Vec<String>) -> (r: Line<P>)
        ensures
            r.spans@.len() == items@.len(),
            forall|i: int|
                0 <= i < items@.len() ==> #[trigger] r.spans@[i].content@ == items@[i]@
                    && r.spans@[i].is_plain(),
    {
        let mut spans: Vec<Span<P>> = Vec::new();
        let mut i: usize = 0;
        while i < items.len()
            invariant
                i <= items@.len(),
                spans@.len() == i,
                forall|j: int|
                    0 <= j < i ==> #[trigger] spans@[j].content@ == items@[j]@
                        && spans@[j].is_plain(),
            decreases items@.len() - i,
        {
            spans.push(Span::new(items[i].clone()));
            i = i + 1;
        }
        Line { spans }
    }

    /// A line from alternating plain and bracketed pieces (as
    /// [`crate::text::split_braced`] gives them): pieces at odd positions
    /// become links whose action records which one was clicked under `key`,
    /// as a bit of a mask (`MASK`) or as the hash of the piece's text.
    pub fn from_interleaved_actions<const MASK: bool>(key: InternalKey, parts: Vec<String>) -> (r: Line<P>)
        ensures
            r.spans@.len() == parts@.len(),
            forall|i: int|
                0 <= i < parts@.len() ==> {
                    let sp = #[trigger] r.spans@[i];
                    &&& sp.content@ == linguate_spec(parts@[i]@)
                    &&& sp.modifiers.spec_bits() == 0
                    &&& i % 2 == 0 ==> sp.action is None && sp.variant == SpanVariant::Plain
                    &&& i % 2 == 1 ==> sp.variant == SpanVariant::Link && sp.action == Some(
                        if MASK {
                            Action::<P>::SetBit(key, ((i as u8) / 2) as u8)
                        } else {
                            Action::<P>::SetValue(key, fnv1a_64(parts@[i]@))
                        },
                    )
                },
    {
        let mut spans: Vec<Span<P>> = Vec::new();
        let mut i: usize = 0;
        while i < parts.len()
            invariant
                i <= parts@.len(),
                spans@.len() == i,
                forall|j: int|
                    0 <= j < i ==> {
                        let sp = #[trigger] spans@[j];
                        &&& sp.content@ == linguate_spec(parts@[j]@)
                        &&& sp.modifiers.spec_bits() == 0
                        &&& j % 2 == 0 ==> sp.action is None && sp.variant == SpanVariant::Plain
                        &&& j % 2 == 1 ==> sp.variant == SpanVariant::Link && sp.action == Some(
                            if MASK {
                                Action::<P>::SetBit(key, ((j as u8) / 2) as u8)
                            } else {
                                Action::<P>::SetValue(key, fnv1a_64(parts@[j]@))
                            },
                        )
                    },
            decreases parts@.len() - i,
        {
            let part = parts[i].clone();
            if i % 2 == 1 {
                let action = if MASK {
                    Action::SetBit((key.0.clone(), key.1), (i as u8) / 2)
                } else {
                    let h = str_hash_64(part.as_str());
                    Action::SetValue((key.0.clone(), key.1), h)
                };
                spans.push(Span::from_lingual(part).as_link().with_action(action));
            } else {
                spans.push(Span::from_lingual(part));
            }
            i = i + 1;
        }
        Line { spans }
    }

    pub fn from_spans(spans: Vec<Span<P>>) -> (r: Line<P>)
        ensures
            r.spans == spans,
    {
        Line { spans }
    }

    /// The text of all spans, concatenated.
    pub fn content(&self) -> (r: String)
        ensures
            r@ == spans_text(self.spans@),
    {
        let mut out = String::new();
        let mut i: usize = 0;
        while i < self.spans.len()
            invariant
                i <= self.spans@.len(),
                out@ == spans_text(self.spans@.take(i as int)),
            decreases self.spans@.len() - i,
        {
            assert(self.spans@.take(i + 1).drop_last() =~= self.spans@.take(i as int));
            out.append(self.spans[i].content.as_str());
            i = i + 1;
        }
        assert(self.spans@.take(i as int) =~= self.spans@);
        out
    }
}

/// An image with a size, a source, an optional action and alternative text.
#[derive(Debug, Clone)]
pub struct Image<P> {
    pub size: [usize; 2],
    pub variant: ImageVariant,
    pub action: Option<Action<P>>,
    pub alt: String,
}

/// Where an image comes from.
#[derive(Debug, Clone)]
pub enum ImageVariant {
    Url(String),
    /// A path on the local file system.
    Local(String),
}

impl<P> Image<P> {
    pub fn new_url(url: String) -> (r: Image<P>)
        ensures
            r.size@ == seq![0usize, 0usize],
            r.variant == ImageVariant::Url(url),
            r.action is None,
            r.alt@.len() == 0,
    {
        Image { size: [0, 0], variant: ImageVariant::Url(url), action: None, alt: String::new() }
    }

    pub fn new_local(path: String) -> (r: Image<P>)
        ensures
            r.size@ == seq![0usize, 0usize],
            r.variant == ImageVariant::Local(path),
            r.action is None,
            r.alt@.len() == 0,
    {
        Image { size: [0, 0], variant: ImageVariant::Local(path), action: None, alt: String::new() }
    }

    pub fn width(&self) -> (r: usize)
        ensures
            r == self.size@[0],
    {
        self.size[0]
    }

    pub fn height(&self) -> (r: usize)
        ensures
            r == self.size@[1],
    {
        self.size[1]
    }

    pub fn with_alt(self, alt: String) -> (r: Image<P>)
        ensures
            r == (Image { alt, ..self }),
    {
        let mut s = self;
        s.alt = alt;
        s
    }
}

/// A content object of a view.
#[derive(Debug)]
pub enum Object<P> {
    /// A single wrapped line.
    Text(Line<P>),
    /// A line with a margin around it.
    Paragraph(Line<P>),
    /// Selectable lines; the chosen index is stored as a bit under the key.
    Choice(PageKey, Vec<(u8, Line<P>)>),
    Image(Image<P>),
    /// A heading of the given level.
    Heading(Span<P>, u8),
    /// A horizontal rule.
    Break,
    /// This many blank lines.
    Empty(u8),
    Note(Line<P>, (u8, u8)),
    Quote(Line<P>, String),
}

impl<P: Clone> Clone for Object<P> {
    fn clone(&self) -> Self {
        match self {
            Object::Text(l) => Object::Text(l.clone()),
            Object::Paragraph(l) => Object::Paragraph(l.clone()),
            Object::Choice(k, options) => Object::Choice(*k, options.clone()),
            Object::Image(i) => Object::Image(i.clone()),
            Object::Heading(s, level) => Object::Heading(s.clone(), *level),
            Object::Break => Object::Break,
            Object::Empty(n) => Object::Empty(*n),
            Object::Note(l, pos) => Object::Note(l.clone(), (pos.0, pos.1)),
            Object::Quote(l, q) => Object::Quote(l.clone(), q.clone()),
        }
    }
}

/// The ordered content objects that a page produced, with the page's
/// resolved id and the tags it attached.
#[derive(Debug)]
pub struct View<P> {
    pub inner: Vec<Object<P>>,
    pub pageid: PageId,
    pub tags: Vec<PageId>,
}

impl<P> View<P> {
    pub fn new(name: PageId) -> (r: View<P>)
        ensures
            r.inner@.len() == 0,
            r.pageid == name,
            r.tags@.len() == 0,
    {
        View { inner: Vec::new(), pageid: name, tags: Vec::new() }
    }

    pub fn name(&self) -> (r: PageId)
        ensures
            r == self.pageid,
    {
        self.pageid.clone()
    }

    pub fn push(&mut self, object: Object<P>)
        ensures
            final(self).inner@ == old(self).inner@.push(object),
            final(self).pageid == old(self).pageid,
            final(self).tags == old(self).tags,
    {
        self.inner.push(object);
    }
}

} // verus!
