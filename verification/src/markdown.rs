//! Markdown descriptions. `parse` turns source text into a small block model: headings,
//! paragraphs, nested and task lists, code blocks, quotes, rules, and inline bold, italic,
//! strikethrough, code and links. pulldown-cmark reads the text into events; the block model is
//! built from them here. Drawing it is the host's work.

use vstd::prelude::*;
use vstd::string::StringExecFns;
use vstd::string::StrSliceExecFns;
use std::ops::Range;
use crate::text::{chars_of, spec_trim, trim};

verus! {

/// Inline styles of a span of text.
#[derive(Clone, Copy, Debug, Default, PartialEq, Eq, Structural)]
pub struct Style {
    pub bold: bool,
    pub italic: bool,
    pub strike: bool,
    pub code: bool,
    pub link: bool,
}

/// Text of one paragraph or heading: contiguous, non-overlapping styled spans plus link targets.
/// Ranges are byte offsets into `text`.
#[derive(Debug, PartialEq)]
pub struct Inline {
    pub text: String,
    pub spans: Vec<(Range<usize>, Style)>,
    pub links: Vec<(Range<usize>, String)>,
}

#[derive(Debug, PartialEq)]
pub enum Block {
    Heading(u8, Inline),
    Paragraph(Inline),
    List { start: Option<u64>, items: Vec<Item> },
    Code(String),
    Quote(Vec<Block>),
    Rule,
}

#[derive(Debug, PartialEq)]
pub struct Item {
    /// `Some` for task-list items (`- [x]`).
    pub checked: Option<bool>,
    pub blocks: Vec<Block>,
}

// ----- views -----

/// A styled span: byte range and style.
pub type SpanV = (int, int, Style);

/// A link: byte range and target.
pub type LinkV = (int, int, Seq<char>);

#[verifier::ext_equal]
pub struct InlineV {
    pub text: Seq<char>,
    pub spans: Seq<SpanV>,
    pub links: Seq<LinkV>,
}

pub enum BlockV {
    Heading(u8, InlineV),
    Paragraph(InlineV),
    List(Option<u64>, Seq<ItemV>),
    Code(Seq<char>),
    Quote(Seq<BlockV>),
    Rule,
}

#[verifier::ext_equal]
pub struct ItemV {
    pub checked: Option<bool>,
    pub blocks: Seq<BlockV>,
}

pub open spec fn span_views(s: Seq<(Range<usize>, Style)>) -> Seq<SpanV> {
    s.map_values(|p: (Range<usize>, Style)| (p.0.start as int, p.0.end as int, p.1))
}

pub open spec fn link_views(s: Seq<(Range<usize>, String)>) -> Seq<LinkV> {
    s.map_values(|p: (Range<usize>, String)| (p.0.start as int, p.0.end as int, p.1@))
}

pub open spec fn inline_view(i: Inline) -> InlineV {
    InlineV { text: i.text@, spans: span_views(i.spans@), links: link_views(i.links@) }
}

pub open spec fn block_view(b: Block) -> BlockV
    decreases b,
{
    match b {
        Block::Heading(level, inline) => BlockV::Heading(level, inline_view(inline)),
        Block::Paragraph(inline) => BlockV::Paragraph(inline_view(inline)),
        Block::List { start, items } => BlockV::List(start, items_view(items@)),
        Block::Code(code) => BlockV::Code(code@),
        Block::Quote(blocks) => BlockV::Quote(blocks_view(blocks@)),
        Block::Rule => BlockV::Rule,
    }
}

pub open spec fn blocks_view(bs: Seq<Block>) -> Seq<BlockV>
    decreases bs,
{
    if bs.len() == 0 {
        seq![]
    } else {
        blocks_view(bs.subrange(0, bs.len() - 1)).push(block_view(bs[bs.len() - 1]))
    }
}

pub open spec fn items_view(items: Seq<Item>) -> Seq<ItemV>
    decreases items,
{
    if items.len() == 0 {
        seq![]
    } else {
        items_view(items.subrange(0, items.len() - 1)).push(item_view(items[items.len() - 1]))
    }
}

pub open spec fn item_view(it: Item) -> ItemV
    decreases it,
{
    ItemV { checked: it.checked, blocks: blocks_view(it.blocks@) }
}

proof fn lemma_blocks_view_push(s: Seq<Block>, b: Block)
    ensures
        blocks_view(s.push(b)) == blocks_view(s).push(block_view(b)),
{
    assert(s.push(b).subrange(0, s.len() as int) =~= s);
}

proof fn lemma_items_view_push(s: Seq<Item>, it: Item)
    ensures
        items_view(s.push(it)) == items_view(s).push(item_view(it)),
{
    assert(s.push(it).subrange(0, s.len() as int) =~= s);
}

// ----- events -----

/// The start of an element, as far as the block model tells elements apart.
#[derive(Debug, PartialEq, Eq)]
pub enum MdTag {
    Paragraph,
    Heading(u8),
    BlockQuote,
    CodeBlock,
    List(Option<u64>),
    Item,
    Emphasis,
    Strong,
    Strikethrough,
    Link(String),
    Other,
}

/// The end of an element.
#[derive(Clone, Copy, Debug, PartialEq, Eq, Structural)]
pub enum MdTagEnd {
    Paragraph,
    Heading,
    BlockQuote,
    CodeBlock,
    List,
    Item,
    Emphasis,
    Strong,
    Strikethrough,
    Link,
    Other,
}

/// One pulldown-cmark event, as far as the block model reads it (inline and block HTML alike
/// as `Html`).
#[derive(Debug, PartialEq, Eq)]
pub enum MdEvent {
    Start(MdTag),
    End(MdTagEnd),
    Text(String),
    Code(String),
    SoftBreak,
    HardBreak,
    Html(String),
    Rule,
    TaskListMarker(bool),
    Other,
}

pub enum MdTagV {
    Paragraph,
    Heading(u8),
    BlockQuote,
    CodeBlock,
    List(Option<u64>),
    Item,
    Emphasis,
    Strong,
    Strikethrough,
    Link(Seq<char>),
    Other,
}

pub enum MdEventV {
    Start(MdTagV),
    End(MdTagEnd),
    Text(Seq<char>),
    Code(Seq<char>),
    SoftBreak,
    HardBreak,
    Html(Seq<char>),
    Rule,
    TaskListMarker(bool),
    Other,
}

pub open spec fn tag_view(t: MdTag) -> MdTagV {
    match t {
        MdTag::Paragraph => MdTagV::Paragraph,
        MdTag::Heading(l) => MdTagV::Heading(l),
        MdTag::BlockQuote => MdTagV::BlockQuote,
        MdTag::CodeBlock => MdTagV::CodeBlock,
        MdTag::List(s) => MdTagV::List(s),
        MdTag::Item => MdTagV::Item,
        MdTag::Emphasis => MdTagV::Emphasis,
        MdTag::Strong => MdTagV::Strong,
        MdTag::Strikethrough => MdTagV::Strikethrough,
        MdTag::Link(url) => MdTagV::Link(url@),
        MdTag::Other => MdTagV::Other,
    }
}

pub open spec fn event_view(e: MdEvent) -> MdEventV {
    match e {
        MdEvent::Start(t) => MdEventV::Start(tag_view(t)),
        MdEvent::End(t) => MdEventV::End(t),
        MdEvent::Text(s) => MdEventV::Text(s@),
        MdEvent::Code(s) => MdEventV::Code(s@),
        MdEvent::SoftBreak => MdEventV::SoftBreak,
        MdEvent::HardBreak => MdEventV::HardBreak,
        MdEvent::Html(s) => MdEventV::Html(s@),
        MdEvent::Rule => MdEventV::Rule,
        MdEvent::TaskListMarker(b) => MdEventV::TaskListMarker(b),
        MdEvent::Other => MdEventV::Other,
    }
}

pub open spec fn events_view(s: Seq<MdEvent>) -> Seq<MdEventV> {
    s.map_values(|e: MdEvent| event_view(e))
}

/// The events pulldown-cmark reads from a Markdown text (strikethrough and task lists on).
pub uninterp spec fn spec_markdown_events(source: Seq<char>) -> Seq<MdEventV>;

#[verifier::external_type_specification]
#[verifier::external_body]
pub struct ExMdEvent<'a>(pulldown_cmark::Event<'a>);

#[verifier::external_type_specification]
#[verifier::external_body]
pub struct ExMdTag<'a>(pulldown_cmark::Tag<'a>);

#[verifier::external_type_specification]
#[verifier::external_body]
pub struct ExMdTagEnd(pulldown_cmark::TagEnd);

/// Converts a pulldown-cmark start tag (kept: the heading level, the list's first number, the
/// link target).
#[verifier::external_body]
fn start_tag(t: pulldown_cmark::Tag) -> MdTag {
    match t {
        pulldown_cmark::Tag::Paragraph => MdTag::Paragraph,
        pulldown_cmark::Tag::Heading { level, .. } => MdTag::Heading(level as u8),
        pulldown_cmark::Tag::BlockQuote(_) => MdTag::BlockQuote,
        pulldown_cmark::Tag::CodeBlock(_) => MdTag::CodeBlock,
        pulldown_cmark::Tag::List(start) => MdTag::List(start),
        pulldown_cmark::Tag::Item => MdTag::Item,
        pulldown_cmark::Tag::Emphasis => MdTag::Emphasis,
        pulldown_cmark::Tag::Strong => MdTag::Strong,
        pulldown_cmark::Tag::Strikethrough => MdTag::Strikethrough,
        pulldown_cmark::Tag::Link { dest_url, .. } => MdTag::Link(dest_url.to_string()),
        _ => MdTag::Other,
    }
}

/// Converts a pulldown-cmark end tag.
#[verifier::external_body]
fn end_tag(t: pulldown_cmark::TagEnd) -> MdTagEnd {
    match t {
        pulldown_cmark::TagEnd::Paragraph => MdTagEnd::Paragraph,
        pulldown_cmark::TagEnd::Heading(_) => MdTagEnd::Heading,
        pulldown_cmark::TagEnd::BlockQuote(_) => MdTagEnd::BlockQuote,
        pulldown_cmark::TagEnd::CodeBlock => MdTagEnd::CodeBlock,
        pulldown_cmark::TagEnd::List(_) => MdTagEnd::List,
        pulldown_cmark::TagEnd::Item => MdTagEnd::Item,
        pulldown_cmark::TagEnd::Emphasis => MdTagEnd::Emphasis,
        pulldown_cmark::TagEnd::Strong => MdTagEnd::Strong,
        pulldown_cmark::TagEnd::Strikethrough => MdTagEnd::Strikethrough,
        pulldown_cmark::TagEnd::Link => MdTagEnd::Link,
        _ => MdTagEnd::Other,
    }
}

/// Converts a pulldown-cmark event (inline HTML as `Html`).
#[verifier::external_body]
fn md_event(e: pulldown_cmark::Event) -> MdEvent {
    match e {
        pulldown_cmark::Event::Start(t) => MdEvent::Start(start_tag(t)),
        pulldown_cmark::Event::End(t) => MdEvent::End(end_tag(t)),
        pulldown_cmark::Event::Text(s) => MdEvent::Text(s.to_string()),
        pulldown_cmark::Event::Code(s) => MdEvent::Code(s.to_string()),
        pulldown_cmark::Event::SoftBreak => MdEvent::SoftBreak,
        pulldown_cmark::Event::HardBreak => MdEvent::HardBreak,
        pulldown_cmark::Event::Html(s) | pulldown_cmark::Event::InlineHtml(s) => MdEvent::Html(s.to_string()),
        pulldown_cmark::Event::Rule => MdEvent::Rule,
        pulldown_cmark::Event::TaskListMarker(checked) => MdEvent::TaskListMarker(checked),
        _ => MdEvent::Other,
    }
}

/// pulldown-cmark's `Parser::new_ext` with strikethrough and task lists, its events converted.
#[verifier::external_body]
fn markdown_events(source: &str) -> (r: Vec<MdEvent>)
    ensures
        events_view(r@) == spec_markdown_events(source@),
{
    let options = pulldown_cmark::Options::ENABLE_STRIKETHROUGH | pulldown_cmark::Options::ENABLE_TASKLISTS;
    pulldown_cmark::Parser::new_ext(source, options).map(md_event).collect()
}


// ----- the block model built from events -----

/// An open container: the root, a quote, a list, or a list item.
pub enum ContainerV {
    Root(Seq<BlockV>),
    Quote(Seq<BlockV>),
    List(Option<u64>, Seq<ItemV>),
    Item(ItemV),
}

/// What the builder holds between two events.
#[verifier::ext_equal]
pub struct BuilderV {
    pub stack: Seq<ContainerV>,
    /// The open paragraph (`None` level) or heading (`Some(level)`).
    pub inline: Option<(Option<u8>, InlineV)>,
    pub bold: nat,
    pub italic: nat,
    pub strike: nat,
    /// Where the open link started in the inline text, and its target.
    pub link: Option<(int, Seq<char>)>,
    /// The open code block's text.
    pub code: Option<Seq<char>>,
}

/// UTF-8 length of a text.
pub open spec fn utf8_len(s: Seq<char>) -> nat {
    vstd::utf8::encode_utf8(s).len()
}

/// UTF-8 length of a text, as `str::len` gives it.
pub open spec fn bytes(s: Seq<char>) -> int {
    (utf8_len(s) as usize) as int
}

pub open spec fn empty_inline() -> InlineV {
    InlineV { text: seq![], spans: seq![], links: seq![] }
}

/// The builder before the first event: an empty root.
pub open spec fn initial() -> BuilderV {
    BuilderV {
        stack: seq![ContainerV::Root(seq![])],
        inline: None,
        bold: 0,
        italic: 0,
        strike: 0,
        link: None,
        code: None,
    }
}

/// Adds a block to the innermost container that holds blocks (none to a list itself).
pub open spec fn push_block(b: BuilderV, block: BlockV) -> BuilderV {
    if b.stack.len() == 0 {
        b
    } else {
        match b.stack.last() {
            ContainerV::Root(bs) => BuilderV {
                stack: b.stack.update(b.stack.len() - 1, ContainerV::Root(bs.push(block))),
                ..b
            },
            ContainerV::Quote(bs) => BuilderV {
                stack: b.stack.update(b.stack.len() - 1, ContainerV::Quote(bs.push(block))),
                ..b
            },
            ContainerV::Item(it) => BuilderV {
                stack: b.stack.update(
                    b.stack.len() - 1,
                    ContainerV::Item(ItemV { checked: it.checked, blocks: it.blocks.push(block) }),
                ),
                ..b
            },
            ContainerV::List(..) => b,
        }
    }
}

/// Closes the open paragraph or heading into a block.
pub open spec fn flush_inline(b: BuilderV) -> BuilderV {
    match b.inline {
        None => b,
        Some((level, il)) => push_block(
            BuilderV { inline: None, ..b },
            match level {
                Some(l) => BlockV::Heading(l, il),
                None => BlockV::Paragraph(il),
            },
        ),
    }
}

/// Text directly inside a tight list item opens an implicit paragraph.
pub open spec fn open_inline(b: BuilderV) -> BuilderV {
    if b.inline is Some {
        b
    } else {
        BuilderV { inline: Some((None, empty_inline())), ..b }
    }
}

/// The level of the open inline (`None` for a paragraph).
pub open spec fn open_level(b: BuilderV) -> Option<u8> {
    match b.inline {
        Some(p) => p.0,
        None => None,
    }
}

/// The open inline (empty when there is none).
pub open spec fn open_text(b: BuilderV) -> InlineV {
    match b.inline {
        Some(p) => p.1,
        None => empty_inline(),
    }
}

pub open spec fn current_style(b: BuilderV, code: bool) -> Style {
    Style { bold: b.bold > 0, italic: b.italic > 0, strike: b.strike > 0, code, link: b.link is Some }
}

/// A span added after the last: it extends the last span when the style is the same and it
/// starts where the last ends.
pub open spec fn add_span(spans: Seq<SpanV>, start: int, end: int, style: Style) -> Seq<SpanV> {
    if spans.len() > 0 && spans.last().2 == style && spans.last().1 == start {
        spans.update(spans.len() - 1, (spans.last().0, end, style))
    } else {
        spans.push((start, end, style))
    }
}

/// Appends text with the current style (code style for inline code).
pub open spec fn add_text(b: BuilderV, t: Seq<char>, code: bool) -> BuilderV {
    let style = current_style(b, code);
    let b1 = open_inline(b);
    let level = open_level(b1);
    let il = open_text(b1);
    let text = il.text + t;
    BuilderV {
        inline: Some((level, InlineV { text, spans: add_span(il.spans, bytes(il.text), bytes(text), style), links: il.links })),
        ..b1
    }
}

pub open spec fn start_tag_step(b: BuilderV, tag: MdTagV) -> BuilderV {
    match tag {
        MdTagV::Paragraph => BuilderV { inline: Some((None, empty_inline())), ..flush_inline(b) },
        MdTagV::Heading(l) => BuilderV { inline: Some((Some(l), empty_inline())), ..flush_inline(b) },
        MdTagV::BlockQuote => BuilderV { stack: flush_inline(b).stack.push(ContainerV::Quote(seq![])), ..flush_inline(b) },
        MdTagV::CodeBlock => BuilderV { code: Some(seq![]), ..flush_inline(b) },
        MdTagV::List(start) => BuilderV {
            stack: flush_inline(b).stack.push(ContainerV::List(start, seq![])),
            ..flush_inline(b)
        },
        MdTagV::Item => BuilderV {
            stack: flush_inline(b).stack.push(ContainerV::Item(ItemV { checked: None, blocks: seq![] })),
            ..flush_inline(b)
        },
        MdTagV::Emphasis => BuilderV { italic: b.italic + 1, ..b },
        MdTagV::Strong => BuilderV { bold: b.bold + 1, ..b },
        MdTagV::Strikethrough => BuilderV { strike: b.strike + 1, ..b },
        MdTagV::Link(url) => BuilderV { link: Some((bytes(open_text(open_inline(b)).text), url)), ..open_inline(b) },
        MdTagV::Other => b,
    }
}

/// The builder without its innermost container.
pub open spec fn popped(b: BuilderV) -> BuilderV {
    BuilderV { stack: b.stack.drop_last(), ..b }
}

pub open spec fn less_one(n: nat) -> nat {
    if n > 0 {
        (n - 1) as nat
    } else {
        0
    }
}

/// `s` without its trailing line breaks.
pub open spec fn trim_newlines(s: Seq<char>) -> Seq<char>
    decreases s.len(),
{
    if s.len() > 0 && s.last() == '\n' {
        trim_newlines(s.drop_last())
    } else {
        s
    }
}

/// A closed item joins the list it is in (if it is in one).
pub open spec fn item_into_list(b: BuilderV, it: ItemV) -> BuilderV {
    if b.stack.len() > 0 && b.stack.last() is List {
        BuilderV {
            stack: b.stack.update(
                b.stack.len() - 1,
                ContainerV::List(b.stack.last()->List_0, b.stack.last()->List_1.push(it)),
            ),
            ..b
        }
    } else {
        b
    }
}

pub open spec fn end_tag_step(b: BuilderV, tag: MdTagEnd) -> BuilderV {
    let f = flush_inline(b);
    match tag {
        MdTagEnd::Paragraph | MdTagEnd::Heading => f,
        MdTagEnd::BlockQuote => if f.stack.len() == 0 {
            f
        } else {
            match f.stack.last() {
                ContainerV::Quote(bs) => push_block(popped(f), BlockV::Quote(bs)),
                _ => popped(f),
            }
        },
        MdTagEnd::CodeBlock => match b.code {
            Some(c) => push_block(BuilderV { code: None, ..b }, BlockV::Code(trim_newlines(c))),
            None => b,
        },
        MdTagEnd::List => if f.stack.len() == 0 {
            f
        } else {
            match f.stack.last() {
                ContainerV::List(start, items) => push_block(popped(f), BlockV::List(start, items)),
                _ => popped(f),
            }
        },
        MdTagEnd::Item => if f.stack.len() == 0 {
            f
        } else {
            match f.stack.last() {
                ContainerV::Item(it) => item_into_list(popped(f), it),
                _ => popped(f),
            }
        },
        MdTagEnd::Emphasis => BuilderV { italic: less_one(b.italic), ..b },
        MdTagEnd::Strong => BuilderV { bold: less_one(b.bold), ..b },
        MdTagEnd::Strikethrough => BuilderV { strike: less_one(b.strike), ..b },
        MdTagEnd::Link => match b.link {
            Some((start, url)) => {
                let b1 = open_inline(BuilderV { link: None, ..b });
                let level = open_level(b1);
                let il = open_text(b1);
                let end = bytes(il.text);
                if end > start {
                    BuilderV {
                        inline: Some((level, InlineV { links: il.links.push((start, end, url)), ..il })),
                        ..b1
                    }
                } else {
                    b1
                }
            },
            None => b,
        },
        MdTagEnd::Other => b,
    }
}

/// What one event does to the builder.
pub open spec fn step(b: BuilderV, e: MdEventV) -> BuilderV {
    match e {
        MdEventV::Start(tag) => start_tag_step(b, tag),
        MdEventV::End(tag) => end_tag_step(b, tag),
        MdEventV::Text(t) => match b.code {
            Some(c) => BuilderV { code: Some(c + t), ..b },
            None => add_text(b, t, false),
        },
        MdEventV::Code(t) => add_text(b, t, true),
        MdEventV::SoftBreak => add_text(b, seq![' '], false),
        MdEventV::HardBreak => add_text(b, seq!['\n'], false),
        MdEventV::Html(t) => add_text(b, t, false),
        MdEventV::Rule => push_block(flush_inline(b), BlockV::Rule),
        MdEventV::TaskListMarker(checked) => if b.stack.len() > 0 && b.stack.last() is Item {
            BuilderV {
                stack: b.stack.update(
                    b.stack.len() - 1,
                    ContainerV::Item(ItemV { checked: Some(checked), blocks: b.stack.last()->Item_0.blocks }),
                ),
                ..b
            }
        } else {
            b
        },
        MdEventV::Other => b,
    }
}

/// The builder after a run of events.
pub open spec fn run(events: Seq<MdEventV>) -> BuilderV
    decreases events.len(),
{
    if events.len() == 0 {
        initial()
    } else {
        step(run(events.drop_last()), events.last())
    }
}

/// The blocks of the root once the last paragraph is closed.
pub open spec fn finish(b: BuilderV) -> Seq<BlockV> {
    let f = flush_inline(b);
    if f.stack.len() > 0 && f.stack[0] is Root {
        f.stack[0]->Root_0
    } else {
        seq![]
    }
}

/// The block model of a run of events.
pub open spec fn blocks_of(events: Seq<MdEventV>) -> Seq<BlockV> {
    finish(run(events))
}


// ----- the builder -----

enum Container {
    Root(Vec<Block>),
    Quote(Vec<Block>),
    List { start: Option<u64>, items: Vec<Item> },
    Item(Item),
}

spec fn container_view(c: Container) -> ContainerV {
    match c {
        Container::Root(bs) => ContainerV::Root(blocks_view(bs@)),
        Container::Quote(bs) => ContainerV::Quote(blocks_view(bs@)),
        Container::List { start, items } => ContainerV::List(start, items_view(items@)),
        Container::Item(it) => ContainerV::Item(item_view(it)),
    }
}

spec fn stack_view(s: Seq<Container>) -> Seq<ContainerV> {
    s.map_values(|c: Container| container_view(c))
}

struct Builder {
    stack: Vec<Container>,
    inline: Option<(Option<u8>, Inline)>,
    bold: u64,
    italic: u64,
    strike: u64,
    link: Option<(usize, String)>,
    code: Option<String>,
}

impl Builder {
    spec fn model(&self) -> BuilderV {
        BuilderV {
            stack: stack_view(self.stack@),
            inline: match self.inline {
                Some(p) => Some((p.0, inline_view(p.1))),
                None => None,
            },
            bold: self.bold as nat,
            italic: self.italic as nat,
            strike: self.strike as nat,
            link: match self.link {
                Some(p) => Some((p.0 as int, p.1@)),
                None => None,
            },
            code: match self.code {
                Some(c) => Some(c@),
                None => None,
            },
        }
    }

    fn push_block(&mut self, block: Block)
        ensures
            final(self).model() == push_block(old(self).model(), block_view(block)),
            final(self).bold == old(self).bold && final(self).italic == old(self).italic && final(self).strike
                == old(self).strike,
    {
        let ghost before = self.stack@;
        let ghost bv = block_view(block);
        match self.stack.pop() {
            Some(Container::Root(mut bs)) => {
                proof {
                    lemma_blocks_view_push(bs@, block);
                }
                bs.push(block);
                self.stack.push(Container::Root(bs));
                assert(stack_view(self.stack@) =~= stack_view(before).update(
                    before.len() - 1,
                    ContainerV::Root(blocks_view(before.last()->Root_0@).push(bv)),
                ));
            },
            Some(Container::Quote(mut bs)) => {
                proof {
                    lemma_blocks_view_push(bs@, block);
                }
                bs.push(block);
                self.stack.push(Container::Quote(bs));
                assert(stack_view(self.stack@) =~= stack_view(before).update(
                    before.len() - 1,
                    ContainerV::Quote(blocks_view(before.last()->Quote_0@).push(bv)),
                ));
            },
            Some(Container::Item(mut it)) => {
                proof {
                    lemma_blocks_view_push(it.blocks@, block);
                }
                it.blocks.push(block);
                self.stack.push(Container::Item(it));
                assert(stack_view(self.stack@) =~= stack_view(before).update(
                    before.len() - 1,
                    ContainerV::Item(
                        ItemV {
                            checked: before.last()->Item_0.checked,
                            blocks: blocks_view(before.last()->Item_0.blocks@).push(bv),
                        },
                    ),
                ));
            },
            Some(c) => {
                self.stack.push(c);
                assert(self.stack@ =~= before);
            },
            None => {},
        }
    }

    fn flush_inline(&mut self)
        ensures
            final(self).model() == flush_inline(old(self).model()),
            final(self).bold == old(self).bold && final(self).italic == old(self).italic && final(self).strike
                == old(self).strike,
    {
        let current = self.inline.take();
        match current {
            None => {},
            Some((level, il)) => {
                let block = match level {
                    Some(l) => Block::Heading(l, il),
                    None => Block::Paragraph(il),
                };
                self.push_block(block);
            },
        }
    }

    fn open_inline(&mut self)
        ensures
            final(self).model() == open_inline(old(self).model()),
            final(self).inline is Some,
            final(self).bold == old(self).bold && final(self).italic == old(self).italic && final(self).strike
                == old(self).strike,
    {
        if self.inline.is_none() {
            self.inline = Some((None, Inline { text: String::new(), spans: Vec::new(), links: Vec::new() }));
            assert(open_text(self.model()) =~= empty_inline());
        }
    }

    fn text(&mut self, t: &str, code: bool)
        ensures
            final(self).model() == add_text(old(self).model(), t@, code),
            final(self).bold == old(self).bold && final(self).italic == old(self).italic && final(self).strike
                == old(self).strike,
    {
        let style = Style {
            bold: self.bold > 0,
            italic: self.italic > 0,
            strike: self.strike > 0,
            code,
            link: self.link.is_some(),
        };
        self.open_inline();
        assert(style == current_style(old(self).model(), code));
        let current = self.inline.take();
        match current {
            Some((level, mut il)) => {
                let ghost old_il = inline_view(il);
                let start = il.text.as_str().len();
                il.text.append(t);
                let end = il.text.as_str().len();
                let n = il.spans.len();
                if n > 0 && il.spans[n - 1].1 == style && il.spans[n - 1].0.end == start {
                    let first = il.spans[n - 1].0.start;
                    il.spans.set(n - 1, (Range { start: first, end }, style));
                } else {
                    il.spans.push((Range { start, end }, style));
                }
                assert(span_views(il.spans@) =~= add_span(old_il.spans, start as int, end as int, style));
                self.inline = Some((level, il));
            },
            None => {},
        }
    }

    fn start(&mut self, tag: &MdTag)
        requires
            old(self).bold < u64::MAX,
            old(self).italic < u64::MAX,
            old(self).strike < u64::MAX,
        ensures
            final(self).model() == start_tag_step(old(self).model(), tag_view(*tag)),
            final(self).bold <= old(self).bold + 1,
            final(self).italic <= old(self).italic + 1,
            final(self).strike <= old(self).strike + 1,
    {
        match tag {
            MdTag::Paragraph => {
                self.flush_inline();
                self.inline = Some((None, Inline { text: String::new(), spans: Vec::new(), links: Vec::new() }));
                assert(open_text(self.model()) =~= empty_inline());
            },
            MdTag::Heading(level) => {
                self.flush_inline();
                self.inline = Some((Some(*level), Inline { text: String::new(), spans: Vec::new(), links: Vec::new() }));
                assert(open_text(self.model()) =~= empty_inline());
            },
            MdTag::BlockQuote => {
                self.flush_inline();
                let ghost before = self.stack@;
                self.stack.push(Container::Quote(Vec::new()));
                assert(blocks_view(Seq::<Block>::empty()) =~= Seq::<BlockV>::empty());
                assert(stack_view(self.stack@) =~= stack_view(before).push(ContainerV::Quote(seq![])));
            },
            MdTag::CodeBlock => {
                self.flush_inline();
                self.code = Some(String::new());
            },
            MdTag::List(start) => {
                self.flush_inline();
                let ghost before = self.stack@;
                self.stack.push(Container::List { start: *start, items: Vec::new() });
                assert(items_view(Seq::<Item>::empty()) =~= Seq::<ItemV>::empty());
                assert(stack_view(self.stack@) =~= stack_view(before).push(ContainerV::List(*start, seq![])));
            },
            MdTag::Item => {
                self.flush_inline();
                let ghost before = self.stack@;
                self.stack.push(Container::Item(Item { checked: None, blocks: Vec::new() }));
                assert(blocks_view(Seq::<Block>::empty()) =~= Seq::<BlockV>::empty());
                assert(stack_view(self.stack@) =~= stack_view(before).push(
                    ContainerV::Item(ItemV { checked: None, blocks: seq![] }),
                ));
            },
            MdTag::Emphasis => {
                self.italic = self.italic + 1;
            },
            MdTag::Strong => {
                self.bold = self.bold + 1;
            },
            MdTag::Strikethrough => {
                self.strike = self.strike + 1;
            },
            MdTag::Link(url) => {
                self.open_inline();
                let start = match &self.inline {
                    Some(p) => p.1.text.as_str().len(),
                    None => 0,
                };
                self.link = Some((start, url.clone()));
            },
            MdTag::Other => {},
        }
    }

    fn end(&mut self, tag: MdTagEnd)
        ensures
            final(self).model() == end_tag_step(old(self).model(), tag),
            final(self).bold <= old(self).bold,
            final(self).italic <= old(self).italic,
            final(self).strike <= old(self).strike,
    {
        match tag {
            MdTagEnd::Paragraph | MdTagEnd::Heading => {
                self.flush_inline();
            },
            MdTagEnd::BlockQuote => {
                self.flush_inline();
                let ghost before = self.stack@;
                let top = self.stack.pop();
                proof {
                    if before.len() > 0 {
                        assert(stack_view(self.stack@) =~= stack_view(before).drop_last());
                    }
                }
                match top {
                    Some(Container::Quote(bs)) => {
                        self.push_block(Block::Quote(bs));
                    },
                    _ => {},
                }
            },
            MdTagEnd::CodeBlock => {
                match self.code.take() {
                    Some(c) => {
                        let trimmed = trim_newlines_exec(c.as_str());
                        self.push_block(Block::Code(trimmed));
                    },
                    None => {},
                }
            },
            MdTagEnd::List => {
                self.flush_inline();
                let ghost before = self.stack@;
                let top = self.stack.pop();
                proof {
                    if before.len() > 0 {
                        assert(stack_view(self.stack@) =~= stack_view(before).drop_last());
                    }
                }
                match top {
                    Some(Container::List { start, items }) => {
                        self.push_block(Block::List { start, items });
                    },
                    _ => {},
                }
            },
            MdTagEnd::Item => {
                self.flush_inline();
                let ghost before = self.stack@;
                let top = self.stack.pop();
                proof {
                    if before.len() > 0 {
                        assert(stack_view(self.stack@) =~= stack_view(before).drop_last());
                    }
                }
                match top {
                    Some(Container::Item(it)) => {
                        let ghost rest = self.stack@;
                        let ghost iv = item_view(it);
                        match self.stack.pop() {
                            Some(Container::List { start, mut items }) => {
                                proof {
                                    lemma_items_view_push(items@, it);
                                }
                                items.push(it);
                                self.stack.push(Container::List { start, items });
                                assert(stack_view(self.stack@) =~= stack_view(rest).update(
                                    rest.len() - 1,
                                    ContainerV::List(start, items_view(rest.last()->List_items@).push(iv)),
                                ));
                            },
                            Some(c) => {
                                self.stack.push(c);
                                assert(self.stack@ =~= rest);
                            },
                            None => {},
                        }
                    },
                    _ => {},
                }
            },
            MdTagEnd::Emphasis => {
                if self.italic > 0 {
                    self.italic = self.italic - 1;
                }
            },
            MdTagEnd::Strong => {
                if self.bold > 0 {
                    self.bold = self.bold - 1;
                }
            },
            MdTagEnd::Strikethrough => {
                if self.strike > 0 {
                    self.strike = self.strike - 1;
                }
            },
            MdTagEnd::Link => {
                match self.link.take() {
                    Some((start, url)) => {
                        self.open_inline();
                        match self.inline.take() {
                            Some((level, mut il)) => {
                                let end = il.text.as_str().len();
                                if end > start {
                                    let ghost links = il.links@;
                                    il.links.push((Range { start, end }, url));
                                    assert(link_views(il.links@) =~= link_views(links).push((start as int, end as int, url@)));
                                }
                                self.inline = Some((level, il));
                            },
                            None => {},
                        }
                    },
                    None => {},
                }
            },
            MdTagEnd::Other => {},
        }
    }

    fn step(&mut self, e: &MdEvent)
        requires
            old(self).bold < u64::MAX,
            old(self).italic < u64::MAX,
            old(self).strike < u64::MAX,
        ensures
            final(self).model() == step(old(self).model(), event_view(*e)),
            final(self).bold <= old(self).bold + 1,
            final(self).italic <= old(self).italic + 1,
            final(self).strike <= old(self).strike + 1,
    {
        match e {
            MdEvent::Start(tag) => self.start(tag),
            MdEvent::End(tag) => self.end(*tag),
            MdEvent::Text(t) => {
                match self.code.take() {
                    Some(mut c) => {
                        c.append(t.as_str());
                        self.code = Some(c);
                    },
                    None => self.text(t.as_str(), false),
                }
            },
            MdEvent::Code(t) => self.text(t.as_str(), true),
            MdEvent::SoftBreak => {
                proof {
                    reveal_strlit(" ");
                    assert(" "@ =~= seq![' ']);
                }
                self.text(" ", false);
            },
            MdEvent::HardBreak => {
                proof {
                    reveal_strlit("\n");
                    assert("\n"@ =~= seq!['\n']);
                }
                self.text("\n", false);
            },
            MdEvent::Html(t) => self.text(t.as_str(), false),
            MdEvent::Rule => {
                self.flush_inline();
                self.push_block(Block::Rule);
            },
            MdEvent::TaskListMarker(checked) => {
                let ghost before = self.stack@;
                match self.stack.pop() {
                    Some(Container::Item(it)) => {
                        self.stack.push(Container::Item(Item { checked: Some(*checked), blocks: it.blocks }));
                        assert(stack_view(self.stack@) =~= stack_view(before).update(
                            before.len() - 1,
                            ContainerV::Item(ItemV { checked: Some(*checked), blocks: blocks_view(before.last()->Item_0.blocks@) }),
                        ));
                    },
                    Some(c) => {
                        self.stack.push(c);
                        assert(self.stack@ =~= before);
                    },
                    None => {},
                }
            },
            MdEvent::Other => {},
        }
    }
}


/// `s` without its trailing line breaks (`trim_end_matches('\n')`).
fn trim_newlines_exec(s: &str) -> (r: String)
    ensures
        r@ == trim_newlines(s@),
{
    let cs = chars_of(s);
    let mut k = cs.len();
    assert(cs@.subrange(0, k as int) =~= cs@);
    while k > 0 && cs[k - 1] == '\n'
        invariant
            k <= cs.len(),
            cs@ == s@,
            trim_newlines(s@) == trim_newlines(cs@.subrange(0, k as int)),
        decreases k,
    {
        assert(cs@.subrange(0, k as int).drop_last() =~= cs@.subrange(0, k as int - 1));
        k -= 1;
    }
    s.substring_char(0, k).to_string()
}

/// Turns Markdown source text into the block model.
pub fn parse(source: &str) -> (r: Vec<Block>)
    ensures
        blocks_view(r@) == blocks_of(spec_markdown_events(source@)),
{
    let events = markdown_events(source);
    let ghost evs = events_view(events@);
    let mut b = Builder {
        stack: vec![Container::Root(Vec::new())],
        inline: None,
        bold: 0,
        italic: 0,
        strike: 0,
        link: None,
        code: None,
    };
    proof {
        assert(blocks_view(Seq::<Block>::empty()) =~= Seq::<BlockV>::empty());
        assert(b.model() =~= initial());
        assert(evs.subrange(0, 0) =~= Seq::<MdEventV>::empty());
    }
    let mut i: usize = 0;
    while i < events.len()
        invariant
            i <= events.len(),
            evs == events_view(events@),
            b.model() == run(evs.subrange(0, i as int)),
            b.bold <= i,
            b.italic <= i,
            b.strike <= i,
        decreases events.len() - i,
    {
        b.step(&events[i]);
        proof {
            let next = evs.subrange(0, i as int + 1);
            assert(next.drop_last() =~= evs.subrange(0, i as int));
            assert(next.last() == event_view(events@[i as int]));
        }
        i += 1;
    }
    assert(evs.subrange(0, evs.len() as int) =~= evs);
    b.flush_inline();
    if b.stack.len() > 0 {
        let first = b.stack.remove(0);
        match first {
            Container::Root(blocks) => blocks,
            _ => Vec::new(),
        }
    } else {
        Vec::new()
    }
}


proof fn lemma_blocks_view_index(s: Seq<Block>)
    ensures
        blocks_view(s).len() == s.len(),
        forall|i: int| 0 <= i < s.len() ==> #[trigger] blocks_view(s)[i] == block_view(s[i]),
    decreases s.len(),
{
    if s.len() > 0 {
        let init = s.subrange(0, s.len() - 1);
        lemma_blocks_view_index(init);
        assert forall|i: int| 0 <= i < s.len() implies #[trigger] blocks_view(s)[i] == block_view(s[i]) by {
            if i < s.len() - 1 {
                assert(init[i] == s[i]);
            }
        }
    }
}

proof fn lemma_items_view_index(s: Seq<Item>)
    ensures
        items_view(s).len() == s.len(),
        forall|i: int| 0 <= i < s.len() ==> #[trigger] items_view(s)[i] == item_view(s[i]),
    decreases s.len(),
{
    if s.len() > 0 {
        let init = s.subrange(0, s.len() - 1);
        lemma_items_view_index(init);
        assert forall|i: int| 0 <= i < s.len() implies #[trigger] items_view(s)[i] == item_view(s[i]) by {
            if i < s.len() - 1 {
                assert(init[i] == s[i]);
            }
        }
    }
}

/// The position of the first line break (-1 if there is none).
pub open spec fn first_newline(s: Seq<char>, i: int) -> int
    decreases s.len() - i,
{
    if i < 0 || i >= s.len() {
        -1
    } else if s[i] == '\n' {
        i
    } else {
        first_newline(s, i + 1)
    }
}

/// The first line of a text as `str::lines` gives it (`None` for an empty text): up to the first
/// line break, without a carriage return just before it.
pub open spec fn first_line(s: Seq<char>) -> Option<Seq<char>> {
    if s.len() == 0 {
        None
    } else if first_newline(s, 0) < 0 {
        Some(s)
    } else {
        let l = s.subrange(0, first_newline(s, 0));
        Some(if l.len() > 0 && l.last() == '\r' { l.drop_last() } else { l })
    }
}

/// The text of the first block that has some: a heading's or paragraph's text, a code block's
/// first line, or the first such text inside a quote or a list.
pub open spec fn first_text(bs: Seq<BlockV>) -> Option<Seq<char>>
    decreases bs,
{
    if bs.len() == 0 {
        None
    } else {
        let here = match bs[0] {
            BlockV::Heading(_, il) => Some(il.text),
            BlockV::Paragraph(il) => Some(il.text),
            BlockV::Code(c) => first_line(c),
            BlockV::Quote(inner) => first_text(inner),
            BlockV::List(_, items) => first_item_text(items),
            BlockV::Rule => None,
        };
        if here is Some {
            here
        } else {
            first_text(bs.subrange(1, bs.len() as int))
        }
    }
}

pub open spec fn first_item_text(items: Seq<ItemV>) -> Option<Seq<char>>
    decreases items,
{
    if items.len() == 0 {
        None
    } else {
        let here = first_text(items[0].blocks);
        if here is Some {
            here
        } else {
            first_item_text(items.subrange(1, items.len() as int))
        }
    }
}

fn first_line_exec(s: &str) -> (r: Option<String>)
    ensures
        r matches Some(l) ==> first_line(s@) == Some(l@),
        r is None ==> first_line(s@) is None,
{
    let cs = chars_of(s);
    let n = cs.len();
    if n == 0 {
        return None;
    }
    let mut k: usize = 0;
    while k < n && cs[k] != '\n'
        invariant
            k <= n,
            n == cs@.len(),
            cs@ == s@,
            first_newline(s@, 0) == first_newline(s@, k as int),
        decreases n - k,
    {
        k += 1;
    }
    if k == n {
        return Some(s.to_string());
    }
    let end = if k > 0 && cs[k - 1] == '\r' {
        k - 1
    } else {
        k
    };
    let r = s.substring_char(0, end).to_string();
    proof {
        let l = s@.subrange(0, k as int);
        if k > 0 && cs@[k as int - 1] == '\r' {
            assert(r@ =~= l.drop_last());
        } else {
            assert(r@ =~= l);
        }
    }
    Some(r)
}

fn first_text_exec(bs: &Vec<Block>) -> (r: Option<String>)
    ensures
        r matches Some(t) ==> first_text(blocks_view(bs@)) == Some(t@),
        r is None ==> first_text(blocks_view(bs@)) is None,
    decreases bs@,
{
    let ghost all = blocks_view(bs@);
    proof {
        lemma_blocks_view_index(bs@);
        assert(all.subrange(0, all.len() as int) =~= all);
    }
    let mut i: usize = 0;
    while i < bs.len()
        invariant
            i <= bs.len(),
            all == blocks_view(bs@),
            all.len() == bs@.len(),
            forall|j: int| 0 <= j < bs@.len() ==> #[trigger] all[j] == block_view(bs@[j]),
            first_text(all) == first_text(all.subrange(i as int, all.len() as int)),
        decreases bs.len() - i,
    {
        let ghost rest = all.subrange(i as int, all.len() as int);
        assert(rest[0] == block_view(bs@[i as int]));
        assert(rest.subrange(1, rest.len() as int) =~= all.subrange(i as int + 1, all.len() as int));
        let here = match &bs[i] {
            Block::Heading(_, il) => Some(il.text.clone()),
            Block::Paragraph(il) => Some(il.text.clone()),
            Block::Code(c) => first_line_exec(c.as_str()),
            Block::Quote(inner) => {
                assert(decreases_to!(bs@ => bs@[i as int]));
                first_text_exec(inner)
            },
            Block::List { items, .. } => {
                assert(decreases_to!(bs@ => bs@[i as int]));
                first_item_text_exec(items)
            },
            Block::Rule => None,
        };
        if here.is_some() {
            return here;
        }
        i += 1;
    }
    None
}

fn first_item_text_exec(items: &Vec<Item>) -> (r: Option<String>)
    ensures
        r matches Some(t) ==> first_item_text(items_view(items@)) == Some(t@),
        r is None ==> first_item_text(items_view(items@)) is None,
    decreases items@,
{
    let ghost all = items_view(items@);
    proof {
        lemma_items_view_index(items@);
        assert(all.subrange(0, all.len() as int) =~= all);
    }
    let mut i: usize = 0;
    while i < items.len()
        invariant
            i <= items.len(),
            all == items_view(items@),
            all.len() == items@.len(),
            forall|j: int| 0 <= j < items@.len() ==> #[trigger] all[j] == item_view(items@[j]),
            first_item_text(all) == first_item_text(all.subrange(i as int, all.len() as int)),
        decreases items.len() - i,
    {
        let ghost rest = all.subrange(i as int, all.len() as int);
        assert(rest[0] == item_view(items@[i as int]));
        assert(rest.subrange(1, rest.len() as int) =~= all.subrange(i as int + 1, all.len() as int));
        assert(decreases_to!(items@ => items@[i as int]));
        let here = first_text_exec(&items[i].blocks);
        if here.is_some() {
            return here;
        }
        i += 1;
    }
    None
}

/// The first block of a Markdown text as one line of plain text (task cards show this).
pub open spec fn spec_summary(source: Seq<char>) -> Seq<char> {
    match first_text(blocks_of(spec_markdown_events(source))) {
        Some(t) => match first_line(t) {
            Some(l) => spec_trim(l),
            None => seq![],
        },
        None => seq![],
    }
}

/// The first block of `source` as one line of plain text: its first line, trimmed.
pub fn summary(source: &str) -> (r: String)
    ensures
        r@ == spec_summary(source@),
{
    let blocks = parse(source);
    match first_text_exec(&blocks) {
        Some(text) => match first_line_exec(text.as_str()) {
            Some(line) => trim(line.as_str()).to_string(),
            None => String::new(),
        },
        None => String::new(),
    }
}

/// `s` starts with `prefix`.
pub open spec fn starts_with(s: Seq<char>, prefix: Seq<char>) -> bool {
    prefix.len() <= s.len() && s.subrange(0, prefix.len() as int) == prefix
}

fn has_prefix(s: &Vec<char>, prefix: &str) -> (r: bool)
    ensures
        r == starts_with(s@, prefix@),
{
    let p = chars_of(prefix);
    if p.len() > s.len() {
        return false;
    }
    let mut i: usize = 0;
    while i < p.len()
        invariant
            i <= p.len(),
            p.len() <= s.len(),
            p@ == prefix@,
            forall|j: int| 0 <= j < i ==> s@[j] == p@[j],
        decreases p.len() - i,
    {
        if s[i] != p[i] {
            assert(s@.subrange(0, p@.len() as int)[i as int] != p@[i as int]);
            return false;
        }
        i += 1;
    }
    assert(s@.subrange(0, p@.len() as int) =~= p@);
    true
}

/// Links in descriptions may come from other people (shared tasks), so only web and mail links
/// are handed to the system: those starting with "https://", "http://" or "mailto:".
pub fn is_safe_url(url: &str) -> (r: bool)
    ensures
        r == (starts_with(url@, "https://"@) || starts_with(url@, "http://"@) || starts_with(url@, "mailto:"@)),
{
    let cs = chars_of(url);
    has_prefix(&cs, "https://") || has_prefix(&cs, "http://") || has_prefix(&cs, "mailto:")
}


// ----- well-formed inlines -----

/// The spans tile the text: the first starts at 0, each starts where the one before ends, the
/// last ends at the end of the text (which is empty when there are no spans), and two spans next
/// to each other differ in style; the links lie inside the text and are not empty.
pub open spec fn inline_ok(il: InlineV) -> bool {
    &&& utf8_len(il.text) <= usize::MAX
    &&& (il.spans.len() == 0 ==> utf8_len(il.text) == 0)
    &&& (il.spans.len() > 0 ==> il.spans[0].0 == 0 && il.spans.last().1 == utf8_len(il.text))
    &&& forall|i: int| 0 <= i < il.spans.len() ==> #[trigger] il.spans[i].0 <= il.spans[i].1
    &&& forall|i: int| 0 <= i < il.spans.len() - 1 ==> #[trigger] il.spans[i].1 == il.spans[i + 1].0
    &&& forall|i: int| 0 <= i < il.spans.len() - 1 ==> #[trigger] il.spans[i].2 != il.spans[i + 1].2
    &&& forall|k: int| 0 <= k < il.links.len() ==> 0 <= #[trigger] il.links[k].0 < il.links[k].1 <= utf8_len(il.text)
}

pub open spec fn block_ok(b: BlockV) -> bool
    decreases b,
{
    match b {
        BlockV::Heading(_, il) => inline_ok(il),
        BlockV::Paragraph(il) => inline_ok(il),
        BlockV::List(_, items) => items_ok(items),
        BlockV::Quote(inner) => blocks_ok(inner),
        BlockV::Code(_) => true,
        BlockV::Rule => true,
    }
}

/// Every paragraph and heading in the blocks (nested ones too) is well formed.
pub open spec fn blocks_ok(bs: Seq<BlockV>) -> bool
    decreases bs,
{
    bs.len() == 0 || (blocks_ok(bs.subrange(0, bs.len() - 1)) && block_ok(bs[bs.len() - 1]))
}

pub open spec fn items_ok(items: Seq<ItemV>) -> bool
    decreases items,
{
    items.len() == 0 || (items_ok(items.subrange(0, items.len() - 1)) && blocks_ok(items[items.len() - 1].blocks))
}

pub open spec fn container_ok(c: ContainerV) -> bool {
    match c {
        ContainerV::Root(bs) => blocks_ok(bs),
        ContainerV::Quote(bs) => blocks_ok(bs),
        ContainerV::List(_, items) => items_ok(items),
        ContainerV::Item(it) => blocks_ok(it.blocks),
    }
}

/// Everything the builder holds is well formed, and the open text is at most `limit` bytes.
pub open spec fn builder_ok(b: BuilderV, limit: int) -> bool {
    &&& forall|i: int| 0 <= i < b.stack.len() ==> container_ok(#[trigger] b.stack[i])
    &&& (b.inline matches Some(p) ==> inline_ok(p.1) && utf8_len(p.1.text) <= limit)
    &&& (b.link matches Some(l) ==> l.0 >= 0)
}

/// The bytes of text an event can add.
pub open spec fn event_len(e: MdEventV) -> nat {
    match e {
        MdEventV::Text(t) => utf8_len(t),
        MdEventV::Code(t) => utf8_len(t),
        MdEventV::Html(t) => utf8_len(t),
        MdEventV::SoftBreak => 1,
        MdEventV::HardBreak => 1,
        _ => 0,
    }
}

/// The bytes of text a run of events can add.
pub open spec fn events_len(events: Seq<MdEventV>) -> nat
    decreases events.len(),
{
    if events.len() == 0 {
        0
    } else {
        events_len(events.drop_last()) + event_len(events.last())
    }
}

proof fn lemma_utf8_concat(a: Seq<char>, b: Seq<char>)
    ensures
        utf8_len(a + b) == utf8_len(a) + utf8_len(b),
    decreases a.len(),
{
    if a.len() > 0 {
        lemma_utf8_concat(a.drop_first(), b);
        assert((a + b).drop_first() =~= a.drop_first() + b);
    } else {
        assert(a + b =~= b);
    }
}

proof fn lemma_blocks_ok_push(bs: Seq<BlockV>, b: BlockV)
    ensures
        blocks_ok(bs.push(b)) == (blocks_ok(bs) && block_ok(b)),
{
    assert(bs.push(b).subrange(0, bs.len() as int) =~= bs);
}

proof fn lemma_items_ok_push(items: Seq<ItemV>, it: ItemV)
    ensures
        items_ok(items.push(it)) == (items_ok(items) && blocks_ok(it.blocks)),
{
    assert(items.push(it).subrange(0, items.len() as int) =~= items);
}

proof fn lemma_push_block_ok(b: BuilderV, block: BlockV, limit: int)
    requires
        builder_ok(b, limit),
        block_ok(block),
    ensures
        builder_ok(push_block(b, block), limit),
        push_block(b, block).inline == b.inline,
        push_block(b, block).link == b.link,
{
    if b.stack.len() > 0 {
        let n = b.stack.len() - 1;
        assert(container_ok(b.stack[n]));
        match b.stack.last() {
            ContainerV::Root(bs) => lemma_blocks_ok_push(bs, block),
            ContainerV::Quote(bs) => lemma_blocks_ok_push(bs, block),
            ContainerV::Item(it) => lemma_blocks_ok_push(it.blocks, block),
            ContainerV::List(..) => {},
        }
        let r = push_block(b, block);
        assert forall|i: int| 0 <= i < r.stack.len() implies container_ok(#[trigger] r.stack[i]) by {
            if i < n {
                assert(r.stack[i] == b.stack[i]);
            }
        }
    }
}

proof fn lemma_flush_ok(b: BuilderV, limit: int)
    requires
        builder_ok(b, limit),
    ensures
        builder_ok(flush_inline(b), limit),
        flush_inline(b).inline is None,
        flush_inline(b).link == b.link,
{
    if let Some((level, il)) = b.inline {
        let block = match level {
            Some(l) => BlockV::Heading(l, il),
            None => BlockV::Paragraph(il),
        };
        lemma_push_block_ok(BuilderV { inline: None, ..b }, block, limit);
    }
}

proof fn lemma_push_container_ok(b: BuilderV, c: ContainerV, limit: int)
    requires
        builder_ok(b, limit),
        container_ok(c),
    ensures
        builder_ok(BuilderV { stack: b.stack.push(c), ..b }, limit),
{
    let r = BuilderV { stack: b.stack.push(c), ..b };
    assert forall|i: int| 0 <= i < r.stack.len() implies container_ok(#[trigger] r.stack[i]) by {
        if i < b.stack.len() {
            assert(r.stack[i] == b.stack[i]);
        }
    }
}

proof fn lemma_pop_ok(b: BuilderV, limit: int)
    requires
        builder_ok(b, limit),
        b.stack.len() > 0,
    ensures
        builder_ok(popped(b), limit),
        container_ok(b.stack.last()),
{
    assert(container_ok(b.stack[b.stack.len() - 1]));
    let r = popped(b);
    assert forall|i: int| 0 <= i < r.stack.len() implies container_ok(#[trigger] r.stack[i]) by {
        assert(r.stack[i] == b.stack[i]);
    }
}

proof fn lemma_add_text_ok(b: BuilderV, t: Seq<char>, code: bool, limit: int)
    requires
        builder_ok(b, limit),
        0 <= limit,
        limit + utf8_len(t) <= usize::MAX,
    ensures
        builder_ok(add_text(b, t, code), limit + utf8_len(t)),
{
    let b1 = open_inline(b);
    let il = open_text(b1);
    assert(inline_ok(empty_inline())) by {
        assert(vstd::utf8::encode_utf8(Seq::<char>::empty()) =~= Seq::<u8>::empty());
    }
    assert(utf8_len(il.text) <= limit) by {
        assert(vstd::utf8::encode_utf8(Seq::<char>::empty()) =~= Seq::<u8>::empty());
    }
    let text = il.text + t;
    lemma_utf8_concat(il.text, t);
    let style = current_style(b, code);
    let start = bytes(il.text);
    let end = bytes(text);
    assert(start == utf8_len(il.text) && end == utf8_len(text));
    let spans = add_span(il.spans, start, end, style);
    let nil = InlineV { text, spans, links: il.links };
    assert(inline_ok(nil)) by {
        if il.spans.len() > 0 && il.spans.last().2 == style && il.spans.last().1 == start {
            assert forall|i: int| 0 <= i < spans.len() - 1 implies #[trigger] spans[i].1 == spans[i + 1].0 by {
                if i + 1 == spans.len() - 1 {
                    assert(spans[i + 1].0 == il.spans[i + 1].0);
                }
            }
            assert forall|i: int| 0 <= i < spans.len() - 1 implies #[trigger] spans[i].2 != spans[i + 1].2 by {
                if i + 1 == spans.len() - 1 {
                    assert(spans[i + 1].2 == il.spans[i + 1].2);
                }
            }
        } else {
            assert forall|i: int| 0 <= i < spans.len() - 1 implies #[trigger] spans[i].1 == spans[i + 1].0 by {
                if i == il.spans.len() - 1 {
                    assert(spans[i] == il.spans.last());
                }
            }
            assert forall|i: int| 0 <= i < spans.len() - 1 implies #[trigger] spans[i].2 != spans[i + 1].2 by {
                if i == il.spans.len() - 1 {
                    assert(spans[i] == il.spans.last());
                    assert(il.spans.last().1 == start);
                } else {
                    assert(spans[i] == il.spans[i]);
                    assert(spans[i + 1] == il.spans[i + 1]);
                }
            }
        }
    }
}

proof fn lemma_step_ok(b: BuilderV, e: MdEventV, limit: int)
    requires
        builder_ok(b, limit),
        0 <= limit,
        limit + event_len(e) <= usize::MAX,
    ensures
        builder_ok(step(b, e), limit + event_len(e)),
{
    assert(utf8_len(Seq::<char>::empty()) == 0) by {
        assert(vstd::utf8::encode_utf8(Seq::<char>::empty()) =~= Seq::<u8>::empty());
    }
    assert(inline_ok(empty_inline())) by {
        assert(vstd::utf8::encode_utf8(Seq::<char>::empty()) =~= Seq::<u8>::empty());
    }
    assert(blocks_ok(Seq::<BlockV>::empty()));
    assert(items_ok(Seq::<ItemV>::empty()));
    let lim2 = limit + event_len(e);
    assert(builder_ok(b, lim2));
    match e {
        MdEventV::Start(tag) => {
            lemma_flush_ok(b, lim2);
            let f = flush_inline(b);
            match tag {
                MdTagV::BlockQuote => lemma_push_container_ok(f, ContainerV::Quote(seq![]), lim2),
                MdTagV::List(start) => lemma_push_container_ok(f, ContainerV::List(start, seq![]), lim2),
                MdTagV::Item => lemma_push_container_ok(
                    f,
                    ContainerV::Item(ItemV { checked: None, blocks: seq![] }),
                    lim2,
                ),
                _ => {},
            }
        },
        MdEventV::End(tag) => {
            lemma_flush_ok(b, lim2);
            let f = flush_inline(b);
            match tag {
                MdTagEnd::BlockQuote => {
                    if f.stack.len() > 0 {
                        lemma_pop_ok(f, lim2);
                        if let ContainerV::Quote(bs) = f.stack.last() {
                            lemma_push_block_ok(popped(f), BlockV::Quote(bs), lim2);
                        }
                    }
                },
                MdTagEnd::List => {
                    if f.stack.len() > 0 {
                        lemma_pop_ok(f, lim2);
                        if let ContainerV::List(start, items) = f.stack.last() {
                            lemma_push_block_ok(popped(f), BlockV::List(start, items), lim2);
                        }
                    }
                },
                MdTagEnd::Item => {
                    if f.stack.len() > 0 {
                        lemma_pop_ok(f, lim2);
                        if let ContainerV::Item(it) = f.stack.last() {
                            let p = popped(f);
                            if p.stack.len() > 0 && p.stack.last() is List {
                                let n = p.stack.len() - 1;
                                assert(container_ok(p.stack[n]));
                                lemma_items_ok_push(p.stack.last()->List_1, it);
                                let r = item_into_list(p, it);
                                assert forall|i: int| 0 <= i < r.stack.len() implies container_ok(#[trigger] r.stack[i]) by {
                                    if i < n {
                                        assert(r.stack[i] == p.stack[i]);
                                    }
                                }
                            }
                        }
                    }
                },
                MdTagEnd::CodeBlock => {
                    if let Some(c) = b.code {
                        lemma_push_block_ok(BuilderV { code: None, ..b }, BlockV::Code(trim_newlines(c)), lim2);
                    }
                },
                MdTagEnd::Link => {
                    if let Some((start, url)) = b.link {
                        let b1 = open_inline(BuilderV { link: None, ..b });
                        let il = open_text(b1);
                        let end = bytes(il.text);
                        assert(end == utf8_len(il.text));
                    }
                },
                _ => {},
            }
        },
        MdEventV::Text(t) => {
            if b.code is None {
                lemma_add_text_ok(b, t, false, limit);
            }
        },
        MdEventV::Code(t) => lemma_add_text_ok(b, t, true, limit),
        MdEventV::Html(t) => lemma_add_text_ok(b, t, false, limit),
        MdEventV::SoftBreak => {
            assert(utf8_len(seq![' ']) == 1) by {
                assert(seq![' '].drop_first() =~= Seq::<char>::empty());
                assert(vstd::utf8::encode_utf8(Seq::<char>::empty()) =~= Seq::<u8>::empty());
            }
            lemma_add_text_ok(b, seq![' '], false, limit);
        },
        MdEventV::HardBreak => {
            assert(utf8_len(seq!['\n']) == 1) by {
                assert(seq!['\n'].drop_first() =~= Seq::<char>::empty());
                assert(vstd::utf8::encode_utf8(Seq::<char>::empty()) =~= Seq::<u8>::empty());
            }
            lemma_add_text_ok(b, seq!['\n'], false, limit);
        },
        MdEventV::Rule => {
            lemma_flush_ok(b, lim2);
            lemma_push_block_ok(flush_inline(b), BlockV::Rule, lim2);
        },
        MdEventV::TaskListMarker(checked) => {
            if b.stack.len() > 0 && b.stack.last() is Item {
                let n = b.stack.len() - 1;
                assert(container_ok(b.stack[n]));
                let r = step(b, e);
                assert forall|i: int| 0 <= i < r.stack.len() implies container_ok(#[trigger] r.stack[i]) by {
                    if i < n {
                        assert(r.stack[i] == b.stack[i]);
                    }
                }
            }
        },
        MdEventV::Other => {},
    }
}

proof fn lemma_run_ok(events: Seq<MdEventV>)
    requires
        events_len(events) <= usize::MAX,
    ensures
        builder_ok(run(events), events_len(events) as int),
    decreases events.len(),
{
    if events.len() == 0 {
        assert(container_ok(ContainerV::Root(seq![])));
        assert(blocks_ok(Seq::<BlockV>::empty()));
        let b = initial();
        assert forall|i: int| 0 <= i < b.stack.len() implies container_ok(#[trigger] b.stack[i]) by {
            assert(b.stack[i] == ContainerV::Root(seq![]));
        }
    } else {
        lemma_run_ok(events.drop_last());
        lemma_step_ok(run(events.drop_last()), events.last(), events_len(events.drop_last()) as int);
    }
}

/// Every paragraph and heading that Markdown text becomes is well formed: its styled spans are
/// contiguous and do not overlap, covering its text from the first byte to the last, two spans
/// next to each other differ in style, and its links lie inside the text (when the text
/// pulldown-cmark hands over fits in memory).
pub proof fn law_spans_tile_the_text(source: Seq<char>)
    requires
        events_len(spec_markdown_events(source)) <= usize::MAX,
    ensures
        blocks_ok(blocks_of(spec_markdown_events(source))),
{
    let events = spec_markdown_events(source);
    lemma_run_ok(events);
    let b = run(events);
    lemma_flush_ok(b, events_len(events) as int);
    let f = flush_inline(b);
    if f.stack.len() > 0 && f.stack[0] is Root {
        assert(container_ok(f.stack[0]));
    }
}

/// A heading keeps the level its event gives: in a top-level builder with no code block open, a
/// heading of level `l` holding the text `t` closes into a `Heading` block of level `l` with text
/// `t`, after the blocks already there.
pub proof fn law_heading_block_has_the_events_level(b: BuilderV, l: u8, t: Seq<char>)
    requires
        b.code is None,
        b.stack.len() == 1,
        b.stack[0] is Root,
    ensures
        ({
            let b3 = step(step(step(b, MdEventV::Start(MdTagV::Heading(l))), MdEventV::Text(t)), MdEventV::End(MdTagEnd::Heading));
            let before = flush_inline(b).stack[0]->Root_0;
            &&& b3.stack.len() == 1
            &&& b3.stack[0] matches ContainerV::Root(bs) && bs.len() == before.len() + 1
                && bs.subrange(0, before.len() as int) == before
                && (bs.last() matches BlockV::Heading(level, il) && level == l && il.text == empty_inline().text + t)
            &&& b3.inline is None
        }),
{
    let f = flush_inline(b);
    assert(f.stack.len() == 1 && f.stack[0] is Root);
    let b1 = step(b, MdEventV::Start(MdTagV::Heading(l)));
    assert(b1.inline == Some((Some(l), empty_inline())));
    assert(b1.stack == f.stack);
    let b2 = step(b1, MdEventV::Text(t));
    assert(b2.stack == f.stack);
    assert(b2.inline matches Some((Some(lv), il)) && lv == l && il.text == empty_inline().text + t);
    let b3 = step(b2, MdEventV::End(MdTagEnd::Heading));
    let before = f.stack[0]->Root_0;
    let bs = b3.stack[0]->Root_0;
    assert(bs.subrange(0, before.len() as int) =~= before);
}

/// A text that pulldown-cmark reads as one heading of level `l` holding the text `t` becomes one
/// `Heading` block of level `l` with text `t`.
pub proof fn law_heading_events_give_a_heading(l: u8, t: Seq<char>)
    ensures
        ({
            let bs = blocks_of(seq![MdEventV::Start(MdTagV::Heading(l)), MdEventV::Text(t), MdEventV::End(MdTagEnd::Heading)]);
            &&& bs.len() == 1
            &&& bs[0] matches BlockV::Heading(level, il) && level == l && il.text == t
        }),
{
    let events = seq![MdEventV::Start(MdTagV::Heading(l)), MdEventV::Text(t), MdEventV::End(MdTagEnd::Heading)];
    assert(events.drop_last().drop_last().drop_last() =~= Seq::<MdEventV>::empty());
    assert(events.drop_last().drop_last() =~= seq![MdEventV::Start(MdTagV::Heading(l))]);
    assert(events.drop_last() =~= seq![MdEventV::Start(MdTagV::Heading(l)), MdEventV::Text(t)]);
    law_heading_block_has_the_events_level(initial(), l, t);
    assert(run(events.drop_last().drop_last().drop_last()) == initial());
    assert(run(events.drop_last().drop_last()) == step(initial(), MdEventV::Start(MdTagV::Heading(l))));
    assert(run(events.drop_last()) == step(step(initial(), MdEventV::Start(MdTagV::Heading(l))), MdEventV::Text(t)));
    assert(run(events) == step(step(step(initial(), MdEventV::Start(MdTagV::Heading(l))), MdEventV::Text(t)), MdEventV::End(MdTagEnd::Heading)));
    assert(empty_inline().text + t =~= t);
}

} // verus!
