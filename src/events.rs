use vstd::prelude::*;

use crate::common::Range;
use crate::data_exchange::{decimal, decimal_string};
use vstd::string::StringExecFns;

verus! {

/// The kind of an event, one taxonomy shared by every stage.
#[derive(Debug, Clone, Copy, PartialEq, Eq, Structural)]
pub enum EventType {
    Unparsed,
    NewLine,
    VerbatimEscaping,
    Text,
    ThematicBreak,
    EnterParagraph,
    EnterHeading1,
    EnterHeading2,
    EnterHeading3,
    EnterHeading4,
    EnterHeading5,
    EnterHeading6,
    EnterBlockQuote,
    EnterOrderedList,
    EnterUnorderedList,
    EnterListItem,
    EnterDescriptionList,
    EnterDescriptionTerm,
    EnterDescriptionDetails,
    EnterCodeBlock,
    IndicateCodeBlockCode,
    ExitBlock,
}

impl EventType {
    /// The stable integer tag of each kind.
    pub open spec fn spec_code(self) -> u8 {
        match self {
            EventType::Unparsed => 255,
            EventType::NewLine => 201,
            EventType::VerbatimEscaping => 202,
            EventType::Text => 203,
            EventType::ThematicBreak => 8,
            EventType::EnterParagraph => 7,
            EventType::EnterHeading1 => 1,
            EventType::EnterHeading2 => 2,
            EventType::EnterHeading3 => 3,
            EventType::EnterHeading4 => 4,
            EventType::EnterHeading5 => 5,
            EventType::EnterHeading6 => 6,
            EventType::EnterBlockQuote => 11,
            EventType::EnterOrderedList => 12,
            EventType::EnterUnorderedList => 13,
            EventType::EnterListItem => 14,
            EventType::EnterDescriptionList => 15,
            EventType::EnterDescriptionTerm => 16,
            EventType::EnterDescriptionDetails => 17,
            EventType::EnterCodeBlock => 21,
            EventType::IndicateCodeBlockCode => 91,
            EventType::ExitBlock => 99,
        }
    }

    /// The kind with the given integer tag, if there is one.
    pub fn from_code(code: u8) -> (r: Option<EventType>)
        ensures
            r matches Some(t) ==> t.spec_code() == code,
            r is None ==> forall|t: EventType| t.spec_code() != code,
    {
        match code {
            255 => Some(EventType::Unparsed),
            201 => Some(EventType::NewLine),
            202 => Some(EventType::VerbatimEscaping),
            203 => Some(EventType::Text),
            8 => Some(EventType::ThematicBreak),
            7 => Some(EventType::EnterParagraph),
            1 => Some(EventType::EnterHeading1),
            2 => Some(EventType::EnterHeading2),
            3 => Some(EventType::EnterHeading3),
            4 => Some(EventType::EnterHeading4),
            5 => Some(EventType::EnterHeading5),
            6 => Some(EventType::EnterHeading6),
            11 => Some(EventType::EnterBlockQuote),
            12 => Some(EventType::EnterOrderedList),
            13 => Some(EventType::EnterUnorderedList),
            14 => Some(EventType::EnterListItem),
            15 => Some(EventType::EnterDescriptionList),
            16 => Some(EventType::EnterDescriptionTerm),
            17 => Some(EventType::EnterDescriptionDetails),
            21 => Some(EventType::EnterCodeBlock),
            91 => Some(EventType::IndicateCodeBlockCode),
            99 => Some(EventType::ExitBlock),
            _ => None,
        }
    }

    pub fn code(&self) -> (r: u8)
        ensures
            r == self.spec_code(),
    {
        match self {
            EventType::Unparsed => 255,
            EventType::NewLine => 201,
            EventType::VerbatimEscaping => 202,
            EventType::Text => 203,
            EventType::ThematicBreak => 8,
            EventType::EnterParagraph => 7,
            EventType::EnterHeading1 => 1,
            EventType::EnterHeading2 => 2,
            EventType::EnterHeading3 => 3,
            EventType::EnterHeading4 => 4,
            EventType::EnterHeading5 => 5,
            EventType::EnterHeading6 => 6,
            EventType::EnterBlockQuote => 11,
            EventType::EnterOrderedList => 12,
            EventType::EnterUnorderedList => 13,
            EventType::EnterListItem => 14,
            EventType::EnterDescriptionList => 15,
            EventType::EnterDescriptionTerm => 16,
            EventType::EnterDescriptionDetails => 17,
            EventType::EnterCodeBlock => 21,
            EventType::IndicateCodeBlockCode => 91,
            EventType::ExitBlock => 99,
        }
    }
}

/// The identifier of a block, unique within a parse.
#[derive(Debug, Clone, Copy, PartialEq, Eq, Structural)]
pub struct BlockID {
    pub value: usize,
}

impl BlockID {
    pub fn new(value: usize) -> (r: BlockID)
        ensures
            r.value == value,
    {
        BlockID { value }
    }

    pub fn value(&self) -> (r: usize)
        ensures
            r == self.value,
    {
        self.value
    }
}

/// The payload of a verbatim escape: its body, whether the input ended
/// before the escape was closed, and the line number after it.
#[derive(Debug, Clone, Copy, PartialEq, Eq, Structural)]
pub struct VerbatimEscaping {
    pub content: Range,
    pub is_closed_forcedly: bool,
    pub line_number_after: usize,
}

/// The payload of a logical newline: the number of the line it starts.
#[derive(Debug, Clone, Copy, PartialEq, Eq, Structural)]
pub struct NewLine {
    pub line_number_after: usize,
}

/// The payload of an event that opens a block.
#[derive(Debug, Clone, Copy, PartialEq, Eq, Structural)]
pub struct BlockWithID {
    pub id: BlockID,
}

/// The payload of a thematic break: its block and its line.
#[derive(Debug, Clone, Copy, PartialEq, Eq, Structural)]
pub struct ThematicBreak {
    pub id: BlockID,
    pub line_number: usize,
}

/// The payload of an event that closes a block: the block, and its first and
/// last lines.
#[derive(Debug, Clone, Copy, PartialEq, Eq, Structural)]
pub struct ExitBlock {
    pub id: BlockID,
    pub start_line_number: usize,
    pub end_line_number: usize,
}

/// Every event that any stage produces.
#[derive(Debug, Clone, Copy, PartialEq, Eq, Structural)]
pub enum Event {
    Unparsed(Range),
    VerbatimEscaping(VerbatimEscaping),
    NewLine(NewLine),
    Text(Range),
    ThematicBreak(ThematicBreak),
    EnterParagraph(BlockWithID),
    EnterHeading1(BlockWithID),
    EnterHeading2(BlockWithID),
    EnterHeading3(BlockWithID),
    EnterHeading4(BlockWithID),
    EnterHeading5(BlockWithID),
    EnterHeading6(BlockWithID),
    EnterBlockQuote(BlockWithID),
    EnterOrderedList(BlockWithID),
    EnterUnorderedList(BlockWithID),
    EnterListItem(BlockWithID),
    EnterDescriptionList(BlockWithID),
    EnterDescriptionTerm(BlockWithID),
    EnterDescriptionDetails(BlockWithID),
    EnterCodeBlock(BlockWithID),
    IndicateCodeBlockCode,
    ExitBlock(ExitBlock),
}

/// The events of the global stage.
#[derive(Debug, Clone, Copy, PartialEq, Eq, Structural)]
pub enum GlobalEvent {
    Unparsed(Range),
    VerbatimEscaping(VerbatimEscaping),
    NewLine(NewLine),
}

/// The events of the block stage.
#[derive(Debug, Clone, Copy, PartialEq, Eq, Structural)]
pub enum BlockEvent {
    Unparsed(Range),
    VerbatimEscaping(VerbatimEscaping),
    NewLine(NewLine),
    Text(Range),
    ThematicBreak(ThematicBreak),
    EnterParagraph(BlockWithID),
    EnterHeading1(BlockWithID),
    EnterHeading2(BlockWithID),
    EnterHeading3(BlockWithID),
    EnterHeading4(BlockWithID),
    EnterHeading5(BlockWithID),
    EnterHeading6(BlockWithID),
    EnterBlockQuote(BlockWithID),
    EnterOrderedList(BlockWithID),
    EnterUnorderedList(BlockWithID),
    EnterListItem(BlockWithID),
    EnterDescriptionList(BlockWithID),
    EnterDescriptionTerm(BlockWithID),
    EnterDescriptionDetails(BlockWithID),
    EnterCodeBlock(BlockWithID),
    IndicateCodeBlockCode,
    ExitBlock(ExitBlock),
}

impl Event {
    /// The range that the event carries as its content, if it has one.
    pub open spec fn content_range(self) -> Option<Range> {
        match self {
            Event::Unparsed(r) => Some(r),
            Event::VerbatimEscaping(v) => Some(v.content),
            Event::Text(r) => Some(r),
            _ => None,
        }
    }

    /// Every range that the event carries lies inside a buffer of `len` bytes.
    pub open spec fn ranges_within(self, len: nat) -> bool {
        match self.content_range() {
            Some(r) => r.within(len),
            None => true,
        }
    }

    pub open spec fn spec_event_type(self) -> EventType {
        match self {
            Event::Unparsed(_) => EventType::Unparsed,
            Event::VerbatimEscaping(_) => EventType::VerbatimEscaping,
            Event::NewLine(_) => EventType::NewLine,
            Event::Text(_) => EventType::Text,
            Event::ThematicBreak(_) => EventType::ThematicBreak,
            Event::EnterParagraph(_) => EventType::EnterParagraph,
            Event::EnterHeading1(_) => EventType::EnterHeading1,
            Event::EnterHeading2(_) => EventType::EnterHeading2,
            Event::EnterHeading3(_) => EventType::EnterHeading3,
            Event::EnterHeading4(_) => EventType::EnterHeading4,
            Event::EnterHeading5(_) => EventType::EnterHeading5,
            Event::EnterHeading6(_) => EventType::EnterHeading6,
            Event::EnterBlockQuote(_) => EventType::EnterBlockQuote,
            Event::EnterOrderedList(_) => EventType::EnterOrderedList,
            Event::EnterUnorderedList(_) => EventType::EnterUnorderedList,
            Event::EnterListItem(_) => EventType::EnterListItem,
            Event::EnterDescriptionList(_) => EventType::EnterDescriptionList,
            Event::EnterDescriptionTerm(_) => EventType::EnterDescriptionTerm,
            Event::EnterDescriptionDetails(_) => EventType::EnterDescriptionDetails,
            Event::EnterCodeBlock(_) => EventType::EnterCodeBlock,
            Event::IndicateCodeBlockCode => EventType::IndicateCodeBlockCode,
            Event::ExitBlock(_) => EventType::ExitBlock,
        }
    }

    pub fn event_type(&self) -> (r: EventType)
        ensures
            r == self.spec_event_type(),
    {
        match self {
            Event::Unparsed(_) => EventType::Unparsed,
            Event::VerbatimEscaping(_) => EventType::VerbatimEscaping,
            Event::NewLine(_) => EventType::NewLine,
            Event::Text(_) => EventType::Text,
            Event::ThematicBreak(_) => EventType::ThematicBreak,
            Event::EnterParagraph(_) => EventType::EnterParagraph,
            Event::EnterHeading1(_) => EventType::EnterHeading1,
            Event::EnterHeading2(_) => EventType::EnterHeading2,
            Event::EnterHeading3(_) => EventType::EnterHeading3,
            Event::EnterHeading4(_) => EventType::EnterHeading4,
            Event::EnterHeading5(_) => EventType::EnterHeading5,
            Event::EnterHeading6(_) => EventType::EnterHeading6,
            Event::EnterBlockQuote(_) => EventType::EnterBlockQuote,
            Event::EnterOrderedList(_) => EventType::EnterOrderedList,
            Event::EnterUnorderedList(_) => EventType::EnterUnorderedList,
            Event::EnterListItem(_) => EventType::EnterListItem,
            Event::EnterDescriptionList(_) => EventType::EnterDescriptionList,
            Event::EnterDescriptionTerm(_) => EventType::EnterDescriptionTerm,
            Event::EnterDescriptionDetails(_) => EventType::EnterDescriptionDetails,
            Event::EnterCodeBlock(_) => EventType::EnterCodeBlock,
            Event::IndicateCodeBlockCode => EventType::IndicateCodeBlockCode,
            Event::ExitBlock(_) => EventType::ExitBlock,
        }
    }

    /// The integer tag of the event's kind.
    pub fn discriminant(&self) -> (r: u8)
        ensures
            r == self.spec_event_type().spec_code(),
    {
        self.event_type().code()
    }

    /// The bytes of the content the event carries, if it carries any.
    pub fn content(&self, input: &[u8]) -> (r: Option<Vec<u8>>)
        requires
            self.ranges_within(input@.len()),
        ensures
            self.content_range() is None ==> r is None,
            self.content_range() is Some ==> r is Some && r.unwrap()@ == self.content_range().unwrap().bytes(input@),
    {
        match self {
            Event::Unparsed(content) | Event::Text(content) => Some(content.content(input)),
            Event::VerbatimEscaping(v) => Some(v.content.content(input)),
            _ => None,
        }
    }

    /// The flags that the event carries beside its kind and content: `F`
    /// for a verbatim escape that the end of the input closed, then `>ln:`
    /// and the line number after a verbatim escape or a newline.
    pub open spec fn spec_assertion_flags(self) -> Seq<Seq<char>> {
        match self {
            Event::VerbatimEscaping(v) => (if v.is_closed_forcedly {
                seq!["F"@]
            } else {
                Seq::empty()
            }).push(">ln:"@ + decimal(v.line_number_after as nat)),
            Event::NewLine(n) => seq![">ln:"@ + decimal(n.line_number_after as nat)],
            _ => Seq::empty(),
        }
    }

    /// The flags of the event, or `None` when it has none.
    pub fn assertion_flags(&self) -> (r: Option<Vec<String>>)
        ensures
            r is None <==> self.spec_assertion_flags().len() == 0,
            r matches Some(v) ==> v@.map_values(|f: String| f@) == self.spec_assertion_flags(),
    {
        let mut flags: Vec<String> = Vec::new();
        let line_number_after = match self {
            Event::VerbatimEscaping(v) => {
                if v.is_closed_forcedly {
                    flags.push(String::from_str("F"));
                }
                v.line_number_after
            },
            Event::NewLine(n) => n.line_number_after,
            _ => {
                return None;
            },
        };
        let mut flag = String::from_str(">ln:");
        let digits = decimal_string(line_number_after);
        flag.append(digits.as_str());
        flags.push(flag);
        assert(flags@.map_values(|f: String| f@) =~= self.spec_assertion_flags());
        Some(flags)
    }
}

impl GlobalEvent {
    pub open spec fn spec_to_event(self) -> Event {
        match self {
            GlobalEvent::Unparsed(r) => Event::Unparsed(r),
            GlobalEvent::VerbatimEscaping(v) => Event::VerbatimEscaping(v),
            GlobalEvent::NewLine(n) => Event::NewLine(n),
        }
    }

    /// Widens the event to the full event enumeration.
    pub fn to_event(&self) -> (r: Event)
        ensures
            r == self.spec_to_event(),
    {
        match self {
            GlobalEvent::Unparsed(r) => Event::Unparsed(*r),
            GlobalEvent::VerbatimEscaping(v) => Event::VerbatimEscaping(*v),
            GlobalEvent::NewLine(n) => Event::NewLine(*n),
        }
    }
}

impl BlockEvent {
    pub open spec fn spec_to_event(self) -> Event {
        match self {
            BlockEvent::Unparsed(r) => Event::Unparsed(r),
            BlockEvent::VerbatimEscaping(v) => Event::VerbatimEscaping(v),
            BlockEvent::NewLine(n) => Event::NewLine(n),
            BlockEvent::Text(r) => Event::Text(r),
            BlockEvent::ThematicBreak(t) => Event::ThematicBreak(t),
            BlockEvent::EnterParagraph(b) => Event::EnterParagraph(b),
            BlockEvent::EnterHeading1(b) => Event::EnterHeading1(b),
            BlockEvent::EnterHeading2(b) => Event::EnterHeading2(b),
            BlockEvent::EnterHeading3(b) => Event::EnterHeading3(b),
            BlockEvent::EnterHeading4(b) => Event::EnterHeading4(b),
            BlockEvent::EnterHeading5(b) => Event::EnterHeading5(b),
            BlockEvent::EnterHeading6(b) => Event::EnterHeading6(b),
            BlockEvent::EnterBlockQuote(b) => Event::EnterBlockQuote(b),
            BlockEvent::EnterOrderedList(b) => Event::EnterOrderedList(b),
            BlockEvent::EnterUnorderedList(b) => Event::EnterUnorderedList(b),
            BlockEvent::EnterListItem(b) => Event::EnterListItem(b),
            BlockEvent::EnterDescriptionList(b) => Event::EnterDescriptionList(b),
            BlockEvent::EnterDescriptionTerm(b) => Event::EnterDescriptionTerm(b),
            BlockEvent::EnterDescriptionDetails(b) => Event::EnterDescriptionDetails(b),
            BlockEvent::EnterCodeBlock(b) => Event::EnterCodeBlock(b),
            BlockEvent::IndicateCodeBlockCode => Event::IndicateCodeBlockCode,
            BlockEvent::ExitBlock(e) => Event::ExitBlock(e),
        }
    }

    /// Widens the event to the full event enumeration.
    pub fn to_event(&self) -> (r: Event)
        ensures
            r == self.spec_to_event(),
    {
        match self {
            BlockEvent::Unparsed(r) => Event::Unparsed(*r),
            BlockEvent::VerbatimEscaping(v) => Event::VerbatimEscaping(*v),
            BlockEvent::NewLine(n) => Event::NewLine(*n),
            BlockEvent::Text(r) => Event::Text(*r),
            BlockEvent::ThematicBreak(t) => Event::ThematicBreak(*t),
            BlockEvent::EnterParagraph(b) => Event::EnterParagraph(*b),
            BlockEvent::EnterHeading1(b) => Event::EnterHeading1(*b),
            BlockEvent::EnterHeading2(b) => Event::EnterHeading2(*b),
            BlockEvent::EnterHeading3(b) => Event::EnterHeading3(*b),
            BlockEvent::EnterHeading4(b) => Event::EnterHeading4(*b),
            BlockEvent::EnterHeading5(b) => Event::EnterHeading5(*b),
            BlockEvent::EnterHeading6(b) => Event::EnterHeading6(*b),
            BlockEvent::EnterBlockQuote(b) => Event::EnterBlockQuote(*b),
            BlockEvent::EnterOrderedList(b) => Event::EnterOrderedList(*b),
            BlockEvent::EnterUnorderedList(b) => Event::EnterUnorderedList(*b),
            BlockEvent::EnterListItem(b) => Event::EnterListItem(*b),
            BlockEvent::EnterDescriptionList(b) => Event::EnterDescriptionList(*b),
            BlockEvent::EnterDescriptionTerm(b) => Event::EnterDescriptionTerm(*b),
            BlockEvent::EnterDescriptionDetails(b) => Event::EnterDescriptionDetails(*b),
            BlockEvent::EnterCodeBlock(b) => Event::EnterCodeBlock(*b),
            BlockEvent::IndicateCodeBlockCode => Event::IndicateCodeBlockCode,
            BlockEvent::ExitBlock(e) => Event::ExitBlock(*e),
        }
    }

    /// The event opens a block.
    pub open spec fn is_enter(self) -> bool {
        match self {
            BlockEvent::EnterParagraph(_) | BlockEvent::EnterHeading1(_) | BlockEvent::EnterHeading2(_)
            | BlockEvent::EnterHeading3(_) | BlockEvent::EnterHeading4(_) | BlockEvent::EnterHeading5(_)
            | BlockEvent::EnterHeading6(_) | BlockEvent::EnterBlockQuote(_) | BlockEvent::EnterOrderedList(_)
            | BlockEvent::EnterUnorderedList(_) | BlockEvent::EnterListItem(_) | BlockEvent::EnterDescriptionList(_)
            | BlockEvent::EnterDescriptionTerm(_) | BlockEvent::EnterDescriptionDetails(_)
            | BlockEvent::EnterCodeBlock(_) => true,
            _ => false,
        }
    }

    /// The identifier of the block that the event opens, closes or is.
    pub open spec fn spec_block_id(self) -> Option<usize> {
        match self {
            BlockEvent::ThematicBreak(t) => Some(t.id.value),
            BlockEvent::EnterParagraph(b) | BlockEvent::EnterHeading1(b) | BlockEvent::EnterHeading2(b)
            | BlockEvent::EnterHeading3(b) | BlockEvent::EnterHeading4(b) | BlockEvent::EnterHeading5(b)
            | BlockEvent::EnterHeading6(b) | BlockEvent::EnterBlockQuote(b) | BlockEvent::EnterOrderedList(b)
            | BlockEvent::EnterUnorderedList(b) | BlockEvent::EnterListItem(b) | BlockEvent::EnterDescriptionList(b)
            | BlockEvent::EnterDescriptionTerm(b) | BlockEvent::EnterDescriptionDetails(b)
            | BlockEvent::EnterCodeBlock(b) => Some(b.id.value),
            BlockEvent::ExitBlock(e) => Some(e.id.value),
            _ => None,
        }
    }

    /// An `ExitBlock` spans its lines in order: it starts no later than it
    /// ends.
    pub open spec fn lines_in_order(self) -> bool {
        self matches BlockEvent::ExitBlock(e) ==> e.start_line_number <= e.end_line_number
    }

    pub open spec fn spec_opens_inline_phase(self) -> bool {
        match self {
            BlockEvent::EnterParagraph(_) | BlockEvent::EnterHeading1(_) | BlockEvent::EnterHeading2(_)
            | BlockEvent::EnterHeading3(_) | BlockEvent::EnterHeading4(_) | BlockEvent::EnterHeading5(_)
            | BlockEvent::EnterHeading6(_) | BlockEvent::IndicateCodeBlockCode => true,
            _ => false,
        }
    }

    pub open spec fn spec_closes_inline_phase(self) -> bool {
        match self {
            BlockEvent::ExitBlock(_) | BlockEvent::IndicateCodeBlockCode => true,
            _ => false,
        }
    }

    /// Whether inline content starts after this event.
    pub fn opens_inline_phase(&self) -> (r: bool)
        ensures
            r == self.spec_opens_inline_phase(),
    {
        match self {
            BlockEvent::EnterParagraph(_) | BlockEvent::EnterHeading1(_) | BlockEvent::EnterHeading2(_)
            | BlockEvent::EnterHeading3(_) | BlockEvent::EnterHeading4(_) | BlockEvent::EnterHeading5(_)
            | BlockEvent::EnterHeading6(_) | BlockEvent::IndicateCodeBlockCode => true,
            _ => false,
        }
    }

    /// Whether inline content ends at this event.
    pub fn closes_inline_phase(&self) -> (r: bool)
        ensures
            r == self.spec_closes_inline_phase(),
    {
        match self {
            BlockEvent::ExitBlock(_) | BlockEvent::IndicateCodeBlockCode => true,
            _ => false,
        }
    }
}

} // verus!
