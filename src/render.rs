//! Console text for walker events: indented node names, property lines in
//! hexadecimal, and a line for each problem.
use vstd::prelude::*;
use vstd::string::StringSliceAdditionalSpecFns;
use crate::tree::{DeviceTree, FdtError};
use crate::walker::{Event, Span};

verus! {

/// Two spaces for each level of `indent`.
pub open spec fn spaces(indent: nat) -> Seq<u8> {
    Seq::new(2 * indent, |i: int| 0x20u8)
}

/// Lowercase hexadecimal digit of `v`, for `v` below 16.
pub open spec fn hex_digit(v: int) -> u8 {
    if v < 10 {
        (0x30 + v) as u8
    } else {
        (0x57 + v) as u8
    }
}

/// The two hexadecimal digits of `b`.
pub open spec fn hex_byte(b: u8) -> Seq<u8> {
    seq![hex_digit(b as int / 16), hex_digit(b as int % 16)]
}

/// Each byte of `data` in two hexadecimal digits, separated by spaces.
pub open spec fn hex_bytes(data: Seq<u8>) -> Seq<u8>
    decreases data.len(),
{
    if data.len() == 0 {
        Seq::empty()
    } else if data.len() == 1 {
        hex_byte(data[0])
    } else {
        hex_bytes(data.drop_last()) + seq![0x20u8] + hex_byte(data.last())
    }
}

/// `n` in hexadecimal, with no leading zeros.
pub open spec fn hex_number(n: nat) -> Seq<u8>
    decreases n,
{
    if n < 16 {
        seq![hex_digit(n as int)]
    } else {
        hex_number(n / 16) + seq![hex_digit((n % 16) as int)]
    }
}

/// The bytes of `blob` in the range `s`.
pub open spec fn span_bytes(blob: Seq<u8>, s: Span) -> Seq<u8> {
    blob.subrange(s.start as int, s.start + s.len)
}

/// The line that reports `e`.
pub open spec fn diagnostic_text(e: FdtError) -> Seq<u8> {
    match e {
        FdtError::MagicMismatch(m) => "Invalid device tree magic 0x".spec_bytes() + hex_number(
            m as nat,
        ) + seq![0x0au8],
        FdtError::Truncated => "Read past the end of the blob\n".spec_bytes(),
        FdtError::InvalidNodeName => "<invalid node name>\n".spec_bytes(),
        FdtError::InvalidNesting => "Invalid end node\n".spec_bytes(),
        FdtError::UnknownTag(t) => "Unknown tag 0x".spec_bytes() + hex_number(t as nat) + seq![
            0x0au8,
        ],
        FdtError::MissingEndTag => "No end tag found\n".spec_bytes(),
        FdtError::MalformedStringTableEntry => "Invalid string table entry\n".spec_bytes(),
    }
}

/// The text for event `e` at indent level `indent`, over the blob `blob`.
pub open spec fn event_text(blob: Seq<u8>, e: Event, indent: nat) -> Seq<u8> {
    match e {
        Event::NodeStart { name } => spaces(indent) + span_bytes(blob, name) + seq![0x0au8],
        Event::Property { name, data } => spaces(indent) + span_bytes(blob, name)
            + ": ".spec_bytes() + (if data.len == 0 {
            "<empty>".spec_bytes()
        } else {
            hex_bytes(span_bytes(blob, data))
        }) + seq![0x0au8],
        Event::Diagnostic(err) => diagnostic_text(err),
        _ => Seq::empty(),
    }
}

/// The indent level after event `e`.
pub open spec fn next_indent(e: Event, indent: nat) -> nat {
    match e {
        Event::NodeStart { .. } => indent + 1,
        Event::NodeEnd => if indent > 0 {
            (indent - 1) as nat
        } else {
            0
        },
        _ => indent,
    }
}

/// The text for the events `evs`, the first at indent level `indent`.
pub open spec fn render_events(blob: Seq<u8>, evs: Seq<Event>, indent: nat) -> Seq<u8>
    decreases evs.len(),
{
    if evs.len() == 0 {
        Seq::empty()
    } else {
        event_text(blob, evs[0], indent) + render_events(
            blob,
            evs.drop_first(),
            next_indent(evs[0], indent),
        )
    }
}

/// Appends two spaces for each level of `indent`.
pub fn console_indent(out: &mut Vec<u8>, indent: usize)
    ensures
        final(out)@ == old(out)@ + spaces(indent as nat),
{
    let mut i: usize = 0;
    while i < indent
        invariant
            i <= indent,
            out@ == old(out)@ + spaces(i as nat),
        decreases indent - i,
    {
        out.push(0x20u8);
        out.push(0x20u8);
        i = i + 1;
        assert(out@ =~= old(out)@ + spaces(i as nat));
    }
}

fn push_hex_digit(out: &mut Vec<u8>, v: u8)
    requires
        v < 16,
    ensures
        final(out)@ == old(out)@.push(hex_digit(v as int)),
{
    if v < 10 {
        out.push(0x30u8 + v);
    } else {
        out.push(0x57u8 + v);
    }
}

fn push_hex_byte(out: &mut Vec<u8>, b: u8)
    ensures
        final(out)@ == old(out)@ + hex_byte(b),
{
    push_hex_digit(out, b / 16);
    push_hex_digit(out, b % 16);
    assert(out@ =~= old(out)@ + hex_byte(b));
}

fn push_hex_number(out: &mut Vec<u8>, n: u32)
    ensures
        final(out)@ == old(out)@ + hex_number(n as nat),
    decreases n,
{
    if n >= 16 {
        push_hex_number(out, n / 16);
    }
    push_hex_digit(out, (n % 16) as u8);
    assert(out@ =~= old(out)@ + hex_number(n as nat));
}

/// Appends the data bytes `blob[start..start + len]` in hexadecimal, separated by spaces.
fn push_hex_bytes(out: &mut Vec<u8>, blob: &[u8], start: usize, len: usize)
    requires
        start + len <= blob@.len(),
    ensures
        final(out)@ == old(out)@ + hex_bytes(blob@.subrange(start as int, start + len)),
{
    let n = blob.len();
    let mut i: usize = 0;
    while i < len
        invariant
            i <= len,
            n == blob@.len(),
            start + len <= blob@.len(),
            out@ == old(out)@ + hex_bytes(blob@.subrange(start as int, start + i)),
        decreases len - i,
    {
        if i > 0 {
            out.push(0x20u8);
        }
        push_hex_byte(out, blob[start + i]);
        proof {
            let s = blob@.subrange(start as int, start + i + 1);
            assert(s.drop_last() =~= blob@.subrange(start as int, start + i));
        }
        i = i + 1;
        assert(out@ =~= old(out)@ + hex_bytes(blob@.subrange(start as int, start + i)));
    }
}

/// Appends the bytes `blob[start..start + len]`.
fn push_span(out: &mut Vec<u8>, blob: &[u8], s: Span)
    requires
        s.within(blob@.len() as int),
    ensures
        final(out)@ == old(out)@ + span_bytes(blob@, s),
{
    let n = blob.len();
    let mut i: usize = 0;
    while i < s.len
        invariant
            i <= s.len,
            n == blob@.len(),
            s.within(blob@.len() as int),
            out@ == old(out)@ + blob@.subrange(s.start as int, s.start + i),
        decreases s.len - i,
    {
        out.push(blob[s.start + i]);
        i = i + 1;
        assert(out@ =~= old(out)@ + blob@.subrange(s.start as int, s.start + i));
    }
}

/// Appends the line that reports `e`.
pub fn render_diagnostic(out: &mut Vec<u8>, e: FdtError)
    ensures
        final(out)@ == old(out)@ + diagnostic_text(e),
{
    match e {
        FdtError::MagicMismatch(m) => {
            out.extend_from_slice("Invalid device tree magic 0x".as_bytes());
            push_hex_number(out, m);
            out.push(0x0au8);
        },
        FdtError::Truncated => out.extend_from_slice("Read past the end of the blob\n".as_bytes()),
        FdtError::InvalidNodeName => out.extend_from_slice("<invalid node name>\n".as_bytes()),
        FdtError::InvalidNesting => out.extend_from_slice("Invalid end node\n".as_bytes()),
        FdtError::UnknownTag(t) => {
            out.extend_from_slice("Unknown tag 0x".as_bytes());
            push_hex_number(out, t);
            out.push(0x0au8);
        },
        FdtError::MissingEndTag => out.extend_from_slice("No end tag found\n".as_bytes()),
        FdtError::MalformedStringTableEntry => out.extend_from_slice(
            "Invalid string table entry\n".as_bytes(),
        ),
    }
    assert(out@ =~= old(out)@ + diagnostic_text(e));
}

/// Appends the text for event `e` at indent level `indent`, over the blob `blob`.
pub fn render_event(out: &mut Vec<u8>, blob: &[u8], e: Event, indent: usize)
    requires
        e.within(blob@.len() as int),
    ensures
        final(out)@ == old(out)@ + event_text(blob@, e, indent as nat),
{
    match e {
        Event::NodeStart { name } => {
            console_indent(out, indent);
            push_span(out, blob, name);
            out.push(0x0au8);
        },
        Event::Property { name, data } => {
            console_indent(out, indent);
            push_span(out, blob, name);
            out.extend_from_slice(": ".as_bytes());
            if data.len == 0 {
                out.extend_from_slice("<empty>".as_bytes());
            } else {
                push_hex_bytes(out, blob, data.start, data.len);
            }
            out.push(0x0au8);
        },
        Event::Diagnostic(err) => render_diagnostic(out, err),
        _ => {},
    }
    assert(out@ =~= old(out)@ + event_text(blob@, e, indent as nat));
}

impl<'a> DeviceTree<'a> {
    /// The console text for a full walk of the structure block.
    pub fn print_structure(&self) -> (r: Vec<u8>)
        ensures
            r@ == render_events(self.base@, self.walk_events(), 0),
    {
        let mut w = self.walker();
        let mut out: Vec<u8> = Vec::new();
        let mut indent: usize = 0;
        loop
            invariant
                w.wf(),
                w.tree() == *self,
                indent == w.spec_depth(),
                out@ + render_events(self.base@, w.remaining(), indent as nat) == render_events(
                    self.base@,
                    self.walk_events(),
                    0,
                ),
            decreases w.remaining().len(),
        {
            let ghost rest = w.remaining();
            let ghost before = out@;
            let ghost old_indent = indent;
            match w.next_event() {
                Some(e) => {
                    render_event(&mut out, self.base, e, indent);
                    indent = w.depth();
                    proof {
                        assert(indent as nat == next_indent(e, old_indent as nat));
                        assert(render_events(self.base@, rest, old_indent as nat) == event_text(
                            self.base@,
                            e,
                            old_indent as nat,
                        ) + render_events(self.base@, w.remaining(), indent as nat));
                        assert(out@ + render_events(self.base@, w.remaining(), indent as nat)
                            =~= before + render_events(self.base@, rest, old_indent as nat));
                    }
                },
                None => {
                    return out;
                },
            }
        }
    }
}

} // verus!
