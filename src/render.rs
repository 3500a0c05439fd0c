use vstd::prelude::*;
use vstd::string::is_ascii;
use vstd::utf8::{decode_utf8, is_ascii_chars, valid_utf8};

use crate::common::{Range, LESS_THAN};
use crate::events::BlockEvent;

verus! {

pub const AMPERSAND: u8 = 38;
pub const DOUBLE_QUOTE: u8 = 34;

/// The bytes of an ASCII string.
pub open spec fn ascii_bytes(s: Seq<char>) -> Seq<u8> {
    s.map_values(|c: char| c as u8)
}

/// How one byte of text is written in HTML.
pub open spec fn escape_text_byte(c: u8) -> Seq<u8> {
    if c == LESS_THAN {
        ascii_bytes("&lt;"@)
    } else if c == AMPERSAND {
        ascii_bytes("&amp;"@)
    } else {
        seq![c]
    }
}

/// How one byte is written in a double-quoted HTML attribute value.
pub open spec fn escape_attribute_byte(c: u8) -> Seq<u8> {
    if c == DOUBLE_QUOTE {
        ascii_bytes("&quot;"@)
    } else if c == AMPERSAND {
        ascii_bytes("&amp;"@)
    } else {
        seq![c]
    }
}

pub open spec fn escaped_text(b: Seq<u8>) -> Seq<u8>
    decreases b.len(),
{
    if b.len() == 0 {
        Seq::empty()
    } else {
        escaped_text(b.drop_last()) + escape_text_byte(b.last())
    }
}

pub open spec fn escaped_attribute(b: Seq<u8>) -> Seq<u8>
    decreases b.len(),
{
    if b.len() == 0 {
        Seq::empty()
    } else {
        escaped_attribute(b.drop_last()) + escape_attribute_byte(b.last())
    }
}

/// The opening and closing tags of the blocks that render as a plain
/// element.
pub open spec fn element_tags(ev: BlockEvent) -> Option<(Seq<char>, Seq<char>)> {
    match ev {
        BlockEvent::EnterParagraph(_) => Some(("<p>"@, "</p>"@)),
        BlockEvent::EnterHeading1(_) => Some(("<h1>"@, "</h1>"@)),
        BlockEvent::EnterHeading2(_) => Some(("<h2>"@, "</h2>"@)),
        BlockEvent::EnterHeading3(_) => Some(("<h3>"@, "</h3>"@)),
        BlockEvent::EnterHeading4(_) => Some(("<h4>"@, "</h4>"@)),
        BlockEvent::EnterHeading5(_) => Some(("<h5>"@, "</h5>"@)),
        BlockEvent::EnterHeading6(_) => Some(("<h6>"@, "</h6>"@)),
        BlockEvent::EnterBlockQuote(_) => Some(("<blockquote>"@, "</blockquote>"@)),
        BlockEvent::EnterOrderedList(_) => Some(("<ol>"@, "</ol>"@)),
        BlockEvent::EnterUnorderedList(_) => Some(("<ul>"@, "</ul>"@)),
        BlockEvent::EnterListItem(_) => Some(("<li>"@, "</li>"@)),
        BlockEvent::EnterDescriptionList(_) => Some(("<dl>"@, "</dl>"@)),
        BlockEvent::EnterDescriptionTerm(_) => Some(("<dt>"@, "</dt>"@)),
        BlockEvent::EnterDescriptionDetails(_) => Some(("<dd>"@, "</dd>"@)),
        _ => None,
    }
}

/// What the renderer has written, the closing tags of the open elements,
/// and whether it is inside the info string of a code block.
pub struct HtmlState {
    pub out: Seq<u8>,
    pub closers: Seq<Seq<u8>>,
    pub in_info_string: bool,
}

/// Renders one event.
pub open spec fn render_step(st: HtmlState, ev: BlockEvent, input: Seq<u8>) -> HtmlState {
    if st.in_info_string {
        match ev {
            BlockEvent::Text(r) | BlockEvent::Unparsed(r) => HtmlState { out: st.out + escaped_attribute(r.bytes(input)), ..st },
            BlockEvent::IndicateCodeBlockCode => HtmlState {
                out: st.out + ascii_bytes("\">"@),
                in_info_string: false,
                ..st
            },
            _ => st,
        }
    } else {
        match ev {
            BlockEvent::Text(r) | BlockEvent::Unparsed(r) => HtmlState { out: st.out + escaped_text(r.bytes(input)), ..st },
            BlockEvent::VerbatimEscaping(v) => HtmlState { out: st.out + escaped_text(v.content.bytes(input)), ..st },
            BlockEvent::NewLine(_) => HtmlState { out: st.out + ascii_bytes("<br>"@), ..st },
            BlockEvent::ThematicBreak(_) => HtmlState { out: st.out + ascii_bytes("<hr>"@), ..st },
            BlockEvent::EnterCodeBlock(_) => HtmlState {
                out: st.out + ascii_bytes("<x-code-block info-string=\""@),
                closers: st.closers.push(ascii_bytes("</x-code-block>"@)),
                in_info_string: true,
            },
            BlockEvent::ExitBlock(_) => if st.closers.len() > 0 {
                HtmlState { out: st.out + st.closers.last(), closers: st.closers.drop_last(), ..st }
            } else {
                st
            },
            _ => match element_tags(ev) {
                Some((open, close)) => HtmlState {
                    out: st.out + ascii_bytes(open),
                    closers: st.closers.push(ascii_bytes(close)),
                    ..st
                },
                None => st,
            },
        }
    }
}

/// Renders a sequence of events from the empty state.
pub open spec fn render_events(evs: Seq<BlockEvent>, input: Seq<u8>) -> HtmlState
    decreases evs.len(),
{
    if evs.len() == 0 {
        HtmlState { out: Seq::empty(), closers: Seq::empty(), in_info_string: false }
    } else {
        render_step(render_events(evs.drop_last(), input), evs.last(), input)
    }
}

/// Appends the bytes of an ASCII string.
fn push_ascii(out: &mut Vec<u8>, s: &str)
    requires
        is_ascii_chars(s@),
    ensures
        final(out)@ == old(out)@ + ascii_bytes(s@),
{
    proof {
        broadcast use vstd::string::is_ascii_spec_bytes;
        assert(is_ascii(s));
    }
    let b = s.as_bytes();
    let n = b.len();
    let mut i: usize = 0;
    while i < n
        invariant
            i <= n,
            n == b@.len(),
            b@ =~= ascii_bytes(s@),
            out@ == old(out)@ + b@.subrange(0, i as int),
        decreases n - i,
    {
        out.push(b[i]);
        i += 1;
        assert(out@ =~= old(out)@ + b@.subrange(0, i as int));
    }
    assert(b@.subrange(0, n as int) =~= b@);
}

/// Appends `input` escaped as HTML text: `<` and `&` become references.
pub fn write_escaped_html_text(dest: &mut Vec<u8>, input: &[u8])
    ensures
        final(dest)@ == old(dest)@ + escaped_text(input@),
{
    let n = input.len();
    let mut i: usize = 0;
    while i < n
        invariant
            i <= n,
            n == input@.len(),
            dest@ == old(dest)@ + escaped_text(input@.take(i as int)),
        decreases n - i,
    {
        let c = input[i];
        proof {
            assert(input@.take(i + 1).drop_last() =~= input@.take(i as int));
            reveal_strlit("&lt;");
            reveal_strlit("&amp;");
        }
        if c == LESS_THAN {
            push_ascii(dest, "&lt;");
        } else if c == AMPERSAND {
            push_ascii(dest, "&amp;");
        } else {
            dest.push(c);
        }
        i += 1;
        assert(dest@ =~= old(dest)@ + escaped_text(input@.take(i as int)));
    }
    assert(input@.take(n as int) =~= input@);
}

/// Appends `input` escaped for a double-quoted attribute value: `"` and `&`
/// become references.
pub fn write_escaped_double_quoted_attribute_value(dest: &mut Vec<u8>, input: &[u8])
    ensures
        final(dest)@ == old(dest)@ + escaped_attribute(input@),
{
    let n = input.len();
    let mut i: usize = 0;
    while i < n
        invariant
            i <= n,
            n == input@.len(),
            dest@ == old(dest)@ + escaped_attribute(input@.take(i as int)),
        decreases n - i,
    {
        let c = input[i];
        proof {
            assert(input@.take(i + 1).drop_last() =~= input@.take(i as int));
            reveal_strlit("&quot;");
            reveal_strlit("&amp;");
        }
        if c == DOUBLE_QUOTE {
            push_ascii(dest, "&quot;");
        } else if c == AMPERSAND {
            push_ascii(dest, "&amp;");
        } else {
            dest.push(c);
        }
        i += 1;
        assert(dest@ =~= old(dest)@ + escaped_attribute(input@.take(i as int)));
    }
    assert(input@.take(n as int) =~= input@);
}


/// The tags of an event that renders as a plain element.
fn element_tags_of(ev: &BlockEvent) -> (r: Option<(&'static str, &'static str)>)
    ensures
        r is None <==> element_tags(*ev) is None,
        r matches Some((o, c)) ==> element_tags(*ev) == Some((o@, c@)) && is_ascii_chars(o@) && is_ascii_chars(c@),
{
    match ev {
        BlockEvent::EnterParagraph(_) => {
            proof {
                reveal_strlit("<p>");
                reveal_strlit("</p>");
            }
            Some(("<p>", "</p>"))
        },
        BlockEvent::EnterHeading1(_) => {
            proof {
                reveal_strlit("<h1>");
                reveal_strlit("</h1>");
            }
            Some(("<h1>", "</h1>"))
        },
        BlockEvent::EnterHeading2(_) => {
            proof {
                reveal_strlit("<h2>");
                reveal_strlit("</h2>");
            }
            Some(("<h2>", "</h2>"))
        },
        BlockEvent::EnterHeading3(_) => {
            proof {
                reveal_strlit("<h3>");
                reveal_strlit("</h3>");
            }
            Some(("<h3>", "</h3>"))
        },
        BlockEvent::EnterHeading4(_) => {
            proof {
                reveal_strlit("<h4>");
                reveal_strlit("</h4>");
            }
            Some(("<h4>", "</h4>"))
        },
        BlockEvent::EnterHeading5(_) => {
            proof {
                reveal_strlit("<h5>");
                reveal_strlit("</h5>");
            }
            Some(("<h5>", "</h5>"))
        },
        BlockEvent::EnterHeading6(_) => {
            proof {
                reveal_strlit("<h6>");
                reveal_strlit("</h6>");
            }
            Some(("<h6>", "</h6>"))
        },
        BlockEvent::EnterBlockQuote(_) => {
            proof {
                reveal_strlit("<blockquote>");
                reveal_strlit("</blockquote>");
            }
            Some(("<blockquote>", "</blockquote>"))
        },
        BlockEvent::EnterOrderedList(_) => {
            proof {
                reveal_strlit("<ol>");
                reveal_strlit("</ol>");
            }
            Some(("<ol>", "</ol>"))
        },
        BlockEvent::EnterUnorderedList(_) => {
            proof {
                reveal_strlit("<ul>");
                reveal_strlit("</ul>");
            }
            Some(("<ul>", "</ul>"))
        },
        BlockEvent::EnterListItem(_) => {
            proof {
                reveal_strlit("<li>");
                reveal_strlit("</li>");
            }
            Some(("<li>", "</li>"))
        },
        BlockEvent::EnterDescriptionList(_) => {
            proof {
                reveal_strlit("<dl>");
                reveal_strlit("</dl>");
            }
            Some(("<dl>", "</dl>"))
        },
        BlockEvent::EnterDescriptionTerm(_) => {
            proof {
                reveal_strlit("<dt>");
                reveal_strlit("</dt>");
            }
            Some(("<dt>", "</dt>"))
        },
        BlockEvent::EnterDescriptionDetails(_) => {
            proof {
                reveal_strlit("<dd>");
                reveal_strlit("</dd>");
            }
            Some(("<dd>", "</dd>"))
        },
        _ => None,
    }
}

/// The closing tags on the stack, as bytes.
pub open spec fn closers_of(stack: Seq<&'static str>) -> Seq<Seq<u8>> {
    stack.map_values(|s: &'static str| ascii_bytes(s@))
}

pub open spec fn all_ascii(stack: Seq<&'static str>) -> bool {
    forall|i: int| 0 <= i < stack.len() ==> is_ascii_chars(#[trigger] stack[i]@)
}

/// Renders one event onto the output.
fn render_event(out: &mut Vec<u8>, stack: &mut Vec<&'static str>, in_info_string: &mut bool, ev: &BlockEvent, input: &[u8])
    requires
        all_ascii(old(stack)@),
        ev.spec_to_event().ranges_within(input@.len()),
    ensures
        all_ascii(final(stack)@),
        render_step(HtmlState { out: old(out)@, closers: closers_of(old(stack)@), in_info_string: *old(in_info_string) }, *ev, input@)
            == (HtmlState { out: final(out)@, closers: closers_of(final(stack)@), in_info_string: *final(in_info_string) }),
{
    let ghost closers0 = closers_of(stack@);
    if *in_info_string {
        match ev {
            BlockEvent::Text(r) | BlockEvent::Unparsed(r) => {
                let bytes = r.content(input);
                write_escaped_double_quoted_attribute_value(out, bytes.as_slice());
            },
            BlockEvent::IndicateCodeBlockCode => {
                proof {
                    reveal_strlit("\">");
                }
                push_ascii(out, "\">");
                *in_info_string = false;
            },
            _ => {},
        }
        return;
    }
    match ev {
        BlockEvent::Text(r) | BlockEvent::Unparsed(r) => {
            let bytes = r.content(input);
            write_escaped_html_text(out, bytes.as_slice());
        },
        BlockEvent::VerbatimEscaping(v) => {
            let bytes = v.content.content(input);
            write_escaped_html_text(out, bytes.as_slice());
        },
        BlockEvent::NewLine(_) => {
            proof {
                reveal_strlit("<br>");
            }
            push_ascii(out, "<br>");
        },
        BlockEvent::ThematicBreak(_) => {
            proof {
                reveal_strlit("<hr>");
            }
            push_ascii(out, "<hr>");
        },
        BlockEvent::EnterCodeBlock(_) => {
            proof {
                reveal_strlit("<x-code-block info-string=\"");
                reveal_strlit("</x-code-block>");
            }
            push_ascii(out, "<x-code-block info-string=\"");
            stack.push("</x-code-block>");
            *in_info_string = true;
            assert(closers_of(stack@) =~= closers0.push(ascii_bytes("</x-code-block>"@)));
        },
        BlockEvent::IndicateCodeBlockCode => {},
        BlockEvent::ExitBlock(_) => {
            match stack.pop() {
                Some(c) => {
                    push_ascii(out, c);
                    assert(closers_of(stack@) =~= closers0.drop_last());
                },
                None => {},
            }
        },
        _ => {
            match element_tags_of(ev) {
                Some((open, close)) => {
                    push_ascii(out, open);
                    stack.push(close);
                    assert(closers_of(stack@) =~= closers0.push(ascii_bytes(close@)));
                },
                None => {},
            }
        },
    }
}

/// Renders the events as HTML: each `Enter*` writes its opening tag and each
/// `ExitBlock` the closing tag of the innermost open element; text is escaped;
/// a code block writes its info string into an attribute.
pub fn render_to_html(input: &[u8], events: &[BlockEvent]) -> (r: Vec<u8>)
    requires
        crate::all_within(events@, input@.len()),
    ensures
        r@ == render_events(events@, input@).out,
{
    let mut out: Vec<u8> = Vec::new();
    let mut stack: Vec<&'static str> = Vec::new();
    let mut in_info_string = false;
    let n = events.len();
    let mut i: usize = 0;
    proof {
        assert(closers_of(stack@) =~= Seq::<Seq<u8>>::empty());
        assert(events@.take(0) =~= Seq::<BlockEvent>::empty());
    }
    while i < n
        invariant
            i <= n,
            n == events@.len(),
            crate::all_within(events@, input@.len()),
            all_ascii(stack@),
            render_events(events@.take(i as int), input@)
                == (HtmlState { out: out@, closers: closers_of(stack@), in_info_string }),
        decreases n - i,
    {
        proof {
            assert(events@.take(i + 1).drop_last() =~= events@.take(i as int));
        }
        render_event(&mut out, &mut stack, &mut in_info_string, &events[i], input);
        i += 1;
    }
    proof {
        assert(events@.take(n as int) =~= events@);
    }
    out
}

/// What `String::from_utf8_lossy` makes of some bytes.
pub uninterp spec fn utf8_lossy_of(b: Seq<u8>) -> Seq<char>;

/// Relies on `String::from_utf8_lossy`: bytes that are valid UTF-8 are
/// decoded as they are; other bytes become replacement characters.
#[verifier::external_body]
pub(crate) fn utf8_lossy(b: &[u8]) -> (r: String)
    ensures
        r@ == utf8_lossy_of(b@),
        valid_utf8(b@) ==> r@ == decode_utf8(b@),
{
    String::from_utf8_lossy(b).into_owned()
}

} // verus!
