//! The wire format: one opcode byte, a ten-byte table of field positions, and
//! the fields themselves.
//!
//! A buffer starts with the opcode. Bytes 1 to 10 hold five pairs, one each
//! for `name`, `offset`, `number`, `sequence` and `content`, in that order. A
//! pair gives the index of a field's first byte and of its last byte, both
//! counted from the start of the buffer; the pair `(0, 0)` marks a field that
//! is absent. The fields that are present follow from byte 11 on, without
//! gaps, in the same order.

use vstd::prelude::*;
use vstd::slice::*;
use vstd::utf8::*;

verus! {

/// Index of the first payload byte: one opcode byte and ten table bytes come
/// before it.
pub const PAYLOAD_START: usize = 11;

/// A message as the two peers understand it, independent of its bytes.
pub ghost struct WireMessage {
    pub operation: i32,
    pub name: Seq<char>,
    pub offset: Option<i32>,
    pub number: Option<i32>,
    pub sequence: Option<Seq<u8>>,
    pub content: Option<Seq<u8>>,
}

/// The low eight bits of `value`, which is all the format keeps of an integer.
pub open spec fn low_byte(value: i32) -> u8 {
    (value as int % 256) as u8
}

/// The table entry of a field that starts at `start` and is `len` bytes long.
pub open spec fn span(present: bool, start: int, len: int) -> Seq<u8> {
    if present {
        seq![start as u8, (start + len - 1) as u8]
    } else {
        seq![0u8, 0u8]
    }
}

/// Whether both indices of a field's table entry can be written as one byte
/// each, that is, whether neither is above 255.
pub open spec fn span_fits(present: bool, start: int, len: int) -> bool {
    present ==> start <= 255 && start + len <= 256
}

/// The bytes that an optional integer contributes to the payload.
pub open spec fn integer_bytes(field: Option<i32>) -> Seq<u8> {
    match field {
        Some(value) => seq![low_byte(value)],
        None => Seq::empty(),
    }
}

/// The bytes that an optional byte string contributes to the payload.
pub open spec fn raw_bytes(field: Option<Seq<u8>>) -> Seq<u8> {
    match field {
        Some(bytes) => bytes,
        None => Seq::empty(),
    }
}

/// An optional integer as the receiver will read it.
pub open spec fn integer_as_sent(field: Option<i32>) -> Option<i32> {
    match field {
        Some(value) => Some(low_byte(value) as i32),
        None => None,
    }
}

impl WireMessage {
    /// The name as it travels: in UTF-8, without a terminator.
    pub open spec fn name_bytes(self) -> Seq<u8> {
        encode_utf8(self.name)
    }

    /// Where `offset` starts if it is present: right behind the name.
    pub open spec fn offset_start(self) -> int {
        PAYLOAD_START + self.name_bytes().len()
    }

    /// Where `number` starts if it is present.
    pub open spec fn number_start(self) -> int {
        self.offset_start() + integer_bytes(self.offset).len()
    }

    /// Where `sequence` starts if it is present.
    pub open spec fn sequence_start(self) -> int {
        self.number_start() + integer_bytes(self.number).len()
    }

    /// Where `content` starts if it is present.
    pub open spec fn content_start(self) -> int {
        self.sequence_start() + raw_bytes(self.sequence).len()
    }

    /// The ten-byte table of field positions.
    pub open spec fn table(self) -> Seq<u8> {
        span(true, PAYLOAD_START as int, self.name_bytes().len() as int)
            + span(self.offset is Some, self.offset_start(), 1)
            + span(self.number is Some, self.number_start(), 1)
            + span(self.sequence is Some, self.sequence_start(), raw_bytes(self.sequence).len() as int)
            + span(self.content is Some, self.content_start(), raw_bytes(self.content).len() as int)
    }

    /// The fields that are present, one after the other.
    pub open spec fn payload(self) -> Seq<u8> {
        self.name_bytes() + integer_bytes(self.offset) + integer_bytes(self.number) + raw_bytes(
            self.sequence,
        ) + raw_bytes(self.content)
    }

    /// The message's bytes on the wire.
    pub open spec fn encode(self) -> Seq<u8> {
        seq![low_byte(self.operation)] + self.table() + self.payload()
    }

    /// Whether every position in the table can be written as a single byte.
    /// A message of which this is false has no encoding.
    pub open spec fn fits(self) -> bool {
        &&& span_fits(true, PAYLOAD_START as int, self.name_bytes().len() as int)
        &&& span_fits(self.offset is Some, self.offset_start(), 1)
        &&& span_fits(self.number is Some, self.number_start(), 1)
        &&& span_fits(self.sequence is Some, self.sequence_start(), raw_bytes(self.sequence).len() as int)
        &&& span_fits(self.content is Some, self.content_start(), raw_bytes(self.content).len() as int)
    }

    /// The message that the receiver reads: the same, but for the integers,
    /// of which only the low byte travels.
    pub open spec fn as_sent(self) -> WireMessage {
        WireMessage {
            operation: low_byte(self.operation) as i32,
            name: self.name,
            offset: integer_as_sent(self.offset),
            number: integer_as_sent(self.number),
            sequence: self.sequence,
            content: self.content,
        }
    }

    /// Whether every integer of the message is a single byte's worth, so that
    /// nothing is lost on the wire.
    pub open spec fn integers_are_bytes(self) -> bool {
        &&& 0 <= self.operation <= 255
        &&& self.offset matches Some(value) ==> 0 <= value <= 255
        &&& self.number matches Some(value) ==> 0 <= value <= 255
    }
}

/// Why a buffer is not a message.
#[derive(Debug, Clone, Copy, PartialEq, Eq)]
pub enum MalformedMessage {
    /// The buffer ends before its position table does.
    ShortHeader,
    /// The table places a field outside the buffer, or its end before its start.
    FieldOutOfBounds,
    /// The bytes of the name are not UTF-8.
    InvalidName,
}

/// Whether the table entry `(start, end)` names bytes that `buffer` has. An
/// entry whose end is one before its start names no bytes, and is in bounds
/// if the buffer reaches up to its start.
pub open spec fn in_bounds(buffer: Seq<u8>, start: u8, end: u8) -> bool {
    start <= end + 1 && end + 1 <= buffer.len()
}

/// The bytes from index `start` to index `end`, both included.
pub open spec fn slice_of(buffer: Seq<u8>, start: u8, end: u8) -> Seq<u8> {
    buffer.subrange(start as int, end + 1)
}

/// An optional integer, read at the position that its table entry gives.
pub open spec fn integer_at(buffer: Seq<u8>, start: u8) -> Option<i32> {
    if start == 0 {
        None
    } else {
        Some(buffer[start as int] as i32)
    }
}

/// An optional byte string, read at the position that its table entry gives.
pub open spec fn bytes_at(buffer: Seq<u8>, start: u8, end: u8) -> Option<Seq<u8>> {
    if start == 0 {
        None
    } else {
        Some(slice_of(buffer, start, end))
    }
}

/// Whether every field that the table of `buffer` announces lies inside it.
/// Of an integer only the first index is read.
pub open spec fn table_in_bounds(buffer: Seq<u8>) -> bool
    recommends
        buffer.len() >= PAYLOAD_START,
{
    &&& in_bounds(buffer, buffer[1], buffer[2])
    &&& buffer[3] != 0 ==> buffer[3] < buffer.len()
    &&& buffer[5] != 0 ==> buffer[5] < buffer.len()
    &&& buffer[7] != 0 ==> in_bounds(buffer, buffer[7], buffer[8])
    &&& buffer[9] != 0 ==> in_bounds(buffer, buffer[9], buffer[10])
}

/// What a buffer means: the message it holds, or why it holds none.
pub open spec fn decode(buffer: Seq<u8>) -> Result<WireMessage, MalformedMessage> {
    if buffer.len() < PAYLOAD_START {
        Err(MalformedMessage::ShortHeader)
    } else if !table_in_bounds(buffer) {
        Err(MalformedMessage::FieldOutOfBounds)
    } else if !valid_utf8(slice_of(buffer, buffer[1], buffer[2])) {
        Err(MalformedMessage::InvalidName)
    } else {
        Ok(
            WireMessage {
                operation: buffer[0] as i32,
                name: decode_utf8(slice_of(buffer, buffer[1], buffer[2])),
                offset: integer_at(buffer, buffer[3]),
                number: integer_at(buffer, buffer[5]),
                sequence: bytes_at(buffer, buffer[7], buffer[8]),
                content: bytes_at(buffer, buffer[9], buffer[10]),
            },
        )
    }
}

/// The table of a message is ten bytes long, and says where each field lies.
proof fn lemma_table_layout(m: WireMessage)
    ensures
        m.table().len() == 10,
        m.table()[0] == span(true, PAYLOAD_START as int, m.name_bytes().len() as int)[0],
        m.table()[1] == span(true, PAYLOAD_START as int, m.name_bytes().len() as int)[1],
        m.table()[2] == span(m.offset is Some, m.offset_start(), 1)[0],
        m.table()[3] == span(m.offset is Some, m.offset_start(), 1)[1],
        m.table()[4] == span(m.number is Some, m.number_start(), 1)[0],
        m.table()[5] == span(m.number is Some, m.number_start(), 1)[1],
        m.table()[6] == span(m.sequence is Some, m.sequence_start(), raw_bytes(m.sequence).len() as int)[0],
        m.table()[7] == span(m.sequence is Some, m.sequence_start(), raw_bytes(m.sequence).len() as int)[1],
        m.table()[8] == span(m.content is Some, m.content_start(), raw_bytes(m.content).len() as int)[0],
        m.table()[9] == span(m.content is Some, m.content_start(), raw_bytes(m.content).len() as int)[1],
{
}

/// The payload of a message holds its fields one after the other.
proof fn lemma_payload_layout(m: WireMessage)
    ensures
        PAYLOAD_START + m.payload().len() == m.content_start() + raw_bytes(m.content).len(),
        m.payload().subrange(0, m.offset_start() - PAYLOAD_START) == m.name_bytes(),
        m.payload().subrange(m.offset_start() - PAYLOAD_START, m.number_start() - PAYLOAD_START)
            == integer_bytes(m.offset),
        m.payload().subrange(m.number_start() - PAYLOAD_START, m.sequence_start() - PAYLOAD_START)
            == integer_bytes(m.number),
        m.payload().subrange(m.sequence_start() - PAYLOAD_START, m.content_start() - PAYLOAD_START)
            == raw_bytes(m.sequence),
        m.payload().subrange(m.content_start() - PAYLOAD_START, m.payload().len() as int)
            == raw_bytes(m.content),
{
    let name = m.name_bytes();
    let offset = integer_bytes(m.offset);
    let number = integer_bytes(m.number);
    let sequence = raw_bytes(m.sequence);
    let content = raw_bytes(m.content);
    let upto_offset = name + offset;
    let upto_number = upto_offset + number;
    let upto_sequence = upto_number + sequence;
    let all = upto_sequence + content;
    assert(all.subrange(0, upto_sequence.len() as int) =~= upto_sequence);
    assert(all.subrange(upto_sequence.len() as int, all.len() as int) =~= content);
    assert(upto_sequence.subrange(0, upto_number.len() as int) =~= upto_number);
    assert(upto_sequence.subrange(upto_number.len() as int, upto_sequence.len() as int) =~= sequence);
    assert(upto_number.subrange(0, upto_offset.len() as int) =~= upto_offset);
    assert(upto_number.subrange(upto_offset.len() as int, upto_number.len() as int) =~= number);
    assert(upto_offset.subrange(0, name.len() as int) =~= name);
    assert(upto_offset.subrange(name.len() as int, upto_offset.len() as int) =~= offset);
    assert(all.subrange(upto_number.len() as int, upto_sequence.len() as int) =~= sequence);
    assert(all.subrange(upto_offset.len() as int, upto_number.len() as int) =~= number);
    assert(all.subrange(name.len() as int, upto_offset.len() as int) =~= offset);
    assert(all.subrange(0, name.len() as int) =~= name);
}

/// What follows a head keeps its order behind it.
proof fn lemma_behind_head(head: Seq<u8>, rest: Seq<u8>, from: int, to: int)
    requires
        0 <= from <= to <= rest.len(),
    ensures
        (head + rest).subrange(head.len() + from, head.len() + to) == rest.subrange(from, to),
{
    assert((head + rest).subrange(head.len() + from, head.len() + to) =~= rest.subrange(from, to));
}

/// Where each part of a message lies in its encoding.
proof fn lemma_encode_layout(m: WireMessage)
    ensures
        m.encode().len() == PAYLOAD_START + m.payload().len(),
        m.encode()[0] == low_byte(m.operation),
        forall|i: int| 0 <= i < 10 ==> m.encode()[1 + i] == #[trigger] m.table()[i],
        m.encode().subrange(PAYLOAD_START as int, m.offset_start()) == m.name_bytes(),
        m.encode().subrange(m.offset_start(), m.number_start()) == integer_bytes(m.offset),
        m.encode().subrange(m.number_start(), m.sequence_start()) == integer_bytes(m.number),
        m.encode().subrange(m.sequence_start(), m.content_start()) == raw_bytes(m.sequence),
        m.encode().subrange(m.content_start(), m.encode().len() as int) == raw_bytes(m.content),
{
    lemma_table_layout(m);
    lemma_payload_layout(m);
    let head = seq![low_byte(m.operation)] + m.table();
    let payload = m.payload();
    let start = PAYLOAD_START as int;
    lemma_behind_head(head, payload, 0, m.offset_start() - start);
    lemma_behind_head(head, payload, m.offset_start() - start, m.number_start() - start);
    lemma_behind_head(head, payload, m.number_start() - start, m.sequence_start() - start);
    lemma_behind_head(head, payload, m.sequence_start() - start, m.content_start() - start);
    lemma_behind_head(head, payload, m.content_start() - start, payload.len() as int);
}

/// Round trip: a message that has an encoding is read back from it as it was
/// sent. Nothing is lost but the high bits of its integers.
pub proof fn lemma_decode_encode(m: WireMessage)
    requires
        m.fits(),
    ensures
        decode(m.encode()) == Ok::<WireMessage, MalformedMessage>(m.as_sent()),
{
    lemma_table_layout(m);
    lemma_encode_layout(m);
    encode_utf8_valid_utf8(m.name);
    encode_utf8_decode_utf8(m.name);
    let buffer = m.encode();
    assert(buffer[1] == m.table()[0]);
    assert(buffer[2] == m.table()[1]);
    assert(buffer[3] == m.table()[2]);
    assert(buffer[4] == m.table()[3]);
    assert(buffer[5] == m.table()[4]);
    assert(buffer[6] == m.table()[5]);
    assert(buffer[7] == m.table()[6]);
    assert(buffer[8] == m.table()[7]);
    assert(buffer[9] == m.table()[8]);
    assert(buffer[10] == m.table()[9]);
    assert(slice_of(buffer, buffer[1], buffer[2]) == m.name_bytes());
    if m.offset is Some {
        assert(buffer[buffer[3] as int] == buffer.subrange(m.offset_start(), m.number_start())[0]);
    }
    if m.number is Some {
        assert(buffer[buffer[5] as int] == buffer.subrange(m.number_start(), m.sequence_start())[0]);
    }
    if m.sequence is Some {
        assert(slice_of(buffer, buffer[7], buffer[8]) == raw_bytes(m.sequence));
    }
    if m.content is Some {
        assert(slice_of(buffer, buffer[9], buffer[10]) == raw_bytes(m.content));
    }
    assert(table_in_bounds(buffer));
}

/// A message whose integers are each a single byte's worth is sent whole.
pub proof fn lemma_sent_whole(m: WireMessage)
    requires
        m.integers_are_bytes(),
    ensures
        m.as_sent() == m,
{
}

/// Round trip, exactly: where every integer of a message is a single byte's
/// worth, decoding its encoding gives the message itself.
pub proof fn lemma_round_trip(m: WireMessage)
    requires
        m.fits(),
        m.integers_are_bytes(),
    ensures
        decode(m.encode()) == Ok::<WireMessage, MalformedMessage>(m),
{
    lemma_decode_encode(m);
    lemma_sent_whole(m);
}

/// `std::string::FromUtf8Error`, the error of `String::from_utf8`. It is only
/// ever turned into [`MalformedMessage::InvalidName`].
#[verifier::external_type_specification]
#[verifier::external_body]
pub struct ExFromUtf8Error(std::string::FromUtf8Error);

/// What an optional byte vector stands for.
pub open spec fn bytes_of(field: Option<Vec<u8>>) -> Option<Seq<u8>> {
    match field {
        Some(bytes) => Some(bytes@),
        None => None,
    }
}

/// A message in memory: an opcode, a name, and up to four optional fields.
#[derive(Debug)]
pub struct SerialMessage {
    operation: i32,
    name: String,
    offset: Option<i32>,
    number: Option<i32>,
    sequence: Option<Vec<u8>>,
    content: Option<Vec<u8>>,
}

impl View for SerialMessage {
    type V = WireMessage;

    closed spec fn view(&self) -> WireMessage {
        WireMessage {
            operation: self.operation,
            name: self.name@,
            offset: self.offset,
            number: self.number,
            sequence: bytes_of(self.sequence),
            content: bytes_of(self.content),
        }
    }
}

/// A copy of an optional byte vector.
fn copy_bytes(field: &Option<Vec<u8>>) -> (copy: Option<Vec<u8>>)
    ensures
        bytes_of(copy) == bytes_of(*field),
{
    match field {
        Some(bytes) => Some(bytes.clone()),
        None => None,
    }
}

impl Clone for SerialMessage {
    fn clone(&self) -> (copy: Self)
        ensures
            copy@ == self@,
    {
        SerialMessage {
            operation: self.operation,
            name: self.name.clone(),
            offset: self.offset,
            number: self.number,
            sequence: copy_bytes(&self.sequence),
            content: copy_bytes(&self.content),
        }
    }
}

impl SerialMessage {
    /// The opcode.
    pub fn read_operation(&self) -> (operation: i32)
        ensures
            operation == self@.operation,
    {
        self.operation
    }

    /// A copy of the name.
    pub fn read_name(&self) -> (name: String)
        ensures
            name@ == self@.name,
    {
        self.name.clone()
    }

    /// Whether there is an offset.
    pub fn has_offset(&self) -> (present: bool)
        ensures
            present == (self@.offset is Some),
    {
        self.offset.is_some()
    }

    /// Whether there is a number.
    pub fn has_number(&self) -> (present: bool)
        ensures
            present == (self@.number is Some),
    {
        self.number.is_some()
    }

    /// Whether there is a sequence.
    pub fn has_sequence(&self) -> (present: bool)
        ensures
            present == (self@.sequence is Some),
    {
        self.sequence.is_some()
    }

    /// Whether there is content.
    pub fn has_content(&self) -> (present: bool)
        ensures
            present == (self@.content is Some),
    {
        self.content.is_some()
    }

    /// The offset, of a message that has one.
    pub fn read_offset(&self) -> (offset: i32)
        requires
            self@.offset is Some,
        ensures
            self@.offset == Some(offset),
    {
        self.offset.unwrap()
    }

    /// The number, of a message that has one.
    pub fn read_number(&self) -> (number: i32)
        requires
            self@.number is Some,
        ensures
            self@.number == Some(number),
    {
        self.number.unwrap()
    }

    /// A copy of the sequence, of a message that has one.
    pub fn read_sequence(&self) -> (sequence: Vec<u8>)
        requires
            self@.sequence is Some,
        ensures
            self@.sequence == Some(sequence@),
    {
        self.sequence.as_ref().unwrap().clone()
    }

    /// A copy of the content, of a message that has some.
    pub fn read_content(&self) -> (content: Vec<u8>)
        requires
            self@.content is Some,
        ensures
            self@.content == Some(content@),
    {
        self.content.as_ref().unwrap().clone()
    }
}

/// The low eight bits of `value`.
fn low_byte_of(value: i32) -> (byte: u8)
    ensures
        byte == low_byte(value),
{
    let byte = #[verifier::truncate]
    (value as u8);
    assert(byte as int == (value as int) % 256) by (bit_vector)
        requires
            byte == (value as u8),
    ;
    byte
}

/// Appends the table entry of one field.
fn push_span(table: &mut Vec<u8>, present: bool, start: usize, len: usize)
    requires
        span_fits(present, start as int, len as int),
        present ==> start >= 1,
    ensures
        final(table)@ == old(table)@ + span(present, start as int, len as int),
{
    if present {
        table.push(start as u8);
        table.push((start + len - 1) as u8);
    } else {
        table.push(0);
        table.push(0);
    }
}

impl SerialMessage {
    /// Builds a message of the given fields.
    pub fn new(
        operation: i32,
        name: String,
        offset: Option<i32>,
        number: Option<i32>,
        sequence: Option<Vec<u8>>,
        content: Option<Vec<u8>>,
    ) -> (message: Self)
        ensures
            message@ == (WireMessage {
                operation,
                name: name@,
                offset,
                number,
                sequence: bytes_of(sequence),
                content: bytes_of(content),
            }),
    {
        SerialMessage { operation, name, offset, number, sequence, content }
    }

    /// Whether the message has an encoding: whether each position in its
    /// table can be written as one byte.
    pub fn fits(&self) -> (fits: bool)
        ensures
            fits == self@.fits(),
    {
        let name_len = self.name.as_str().as_bytes().len();
        if name_len > 256 - PAYLOAD_START {
            return false;
        }
        let mut point: usize = PAYLOAD_START + name_len;
        if self.offset.is_some() {
            if point > 255 {
                return false;
            }
            point += 1;
        }
        if self.number.is_some() {
            if point > 255 {
                return false;
            }
            point += 1;
        }
        match &self.sequence {
            Some(sequence) => {
                if point > 255 || sequence.len() > 256 - point {
                    return false;
                }
                point += sequence.len();
            },
            None => {},
        }
        match &self.content {
            Some(content) => point <= 255 && content.len() <= 256 - point,
            None => true,
        }
    }

    /// The message's bytes on the wire, of a message that has an encoding
    /// (see [`SerialMessage::fits`]).
    pub fn serialize_message(&self) -> (bytes: Vec<u8>)
        requires
            self@.fits(),
        ensures
            bytes@ == self@.encode(),
    {
        let mut table: Vec<u8> = Vec::with_capacity(10);
        let mut point: usize = PAYLOAD_START;

        let mut payload = self.serialize_name();
        push_span(&mut table, true, point, payload.len());
        assert(table@ == span(true, PAYLOAD_START as int, self@.name_bytes().len() as int));
        point += payload.len();
        assert(point == self@.offset_start());

        let mut offset = self.serialize_offset();
        push_span(&mut table, self.offset.is_some(), point, 1);
        point += offset.len();
        assert(point == self@.number_start());

        let mut number = self.serialize_number();
        push_span(&mut table, self.number.is_some(), point, 1);
        point += number.len();
        assert(point == self@.sequence_start());

        let mut sequence = self.serialize_sequence();
        push_span(&mut table, self.sequence.is_some(), point, sequence.len());
        point += sequence.len();
        assert(point == self@.content_start());

        let mut content = self.serialize_content();
        push_span(&mut table, self.content.is_some(), point, content.len());
        assert(table@ == self@.table());

        payload.append(&mut offset);
        payload.append(&mut number);
        payload.append(&mut sequence);
        payload.append(&mut content);
        assert(payload@ == self@.payload());

        let mut serial_vec = self.serialize_operation();
        serial_vec.append(&mut table);
        serial_vec.append(&mut payload);
        serial_vec
    }

    /// The message's bytes on the wire, if it has an encoding.
    pub fn try_serialize(&self) -> (bytes: Option<Vec<u8>>)
        ensures
            match bytes {
                Some(bytes) => self@.fits() && bytes@ == self@.encode(),
                None => !self@.fits(),
            },
    {
        if self.fits() {
            Some(self.serialize_message())
        } else {
            None
        }
    }

    /// The opcode byte.
    fn serialize_operation(&self) -> (bytes: Vec<u8>)
        ensures
            bytes@ == seq![low_byte(self@.operation)],
    {
        let mut serial_vec = Vec::with_capacity(16);
        serial_vec.push(low_byte_of(self.operation));
        serial_vec
    }

    /// The bytes of the name.
    fn serialize_name(&self) -> (bytes: Vec<u8>)
        ensures
            bytes@ == self@.name_bytes(),
    {
        slice_to_vec(self.name.as_str().as_bytes())
    }

    /// The byte of the offset, or no byte where there is no offset.
    fn serialize_offset(&self) -> (bytes: Vec<u8>)
        ensures
            bytes@ == integer_bytes(self@.offset),
    {
        let mut serial_vec = Vec::with_capacity(16);
        match self.offset {
            Some(offset) => serial_vec.push(low_byte_of(offset)),
            None => {},
        }
        serial_vec
    }

    /// The byte of the number, or no byte where there is no number.
    fn serialize_number(&self) -> (bytes: Vec<u8>)
        ensures
            bytes@ == integer_bytes(self@.number),
    {
        let mut serial_vec = Vec::with_capacity(16);
        match self.number {
            Some(number) => serial_vec.push(low_byte_of(number)),
            None => {},
        }
        serial_vec
    }

    /// The bytes of the sequence, or none where there is no sequence.
    fn serialize_sequence(&self) -> (bytes: Vec<u8>)
        ensures
            bytes@ == raw_bytes(self@.sequence),
    {
        match &self.sequence {
            Some(sequence) => sequence.clone(),
            None => Vec::new(),
        }
    }

    /// The bytes of the content, or none where there is no content.
    fn serialize_content(&self) -> (bytes: Vec<u8>)
        ensures
            bytes@ == raw_bytes(self@.content),
    {
        match &self.content {
            Some(content) => content.clone(),
            None => Vec::new(),
        }
    }
}

/// `String::from_utf8`: the bytes as a string, where they are UTF-8, and an
/// error where they are not. The string holds exactly the bytes given.
#[verifier::external_body]
fn string_from_utf8(bytes: Vec<u8>) -> (text: Result<String, std::string::FromUtf8Error>)
    ensures
        text is Ok <==> valid_utf8(bytes@),
        text matches Ok(string) ==> encode_utf8(string@) == bytes@,
{
    String::from_utf8(bytes)
}

/// Whether the table entry `(start, end)` names bytes of a buffer of `len`
/// bytes.
fn span_in_bounds(buffer: &Vec<u8>, start: u8, end: u8) -> (inside: bool)
    ensures
        inside == in_bounds(buffer@, start, end),
{
    start as usize <= end as usize + 1 && end as usize + 1 <= buffer.len()
}

/// A copy of the bytes from index `start` to index `end`, both included.
fn copy_span(buffer: &Vec<u8>, start: u8, end: u8) -> (bytes: Vec<u8>)
    requires
        in_bounds(buffer@, start, end),
    ensures
        bytes@ == slice_of(buffer@, start, end),
{
    slice_to_vec(slice_subrange(buffer.as_slice(), start as usize, end as usize + 1))
}

impl SerialMessage {
    /// Reads a message from a buffer, or says why the buffer holds none.
    pub fn deserialize(serial_vec: Vec<u8>) -> (decoded: Result<SerialMessage, MalformedMessage>)
        ensures
            decoded matches Ok(message) ==> decode(serial_vec@) == Ok::<
                WireMessage,
                MalformedMessage,
            >(message@),
            decoded matches Err(error) ==> decode(serial_vec@) == Err::<
                WireMessage,
                MalformedMessage,
            >(error),
    {
        if serial_vec.len() < PAYLOAD_START {
            return Err(MalformedMessage::ShortHeader);
        }
        let inside = span_in_bounds(&serial_vec, serial_vec[1], serial_vec[2]) && (serial_vec[3] == 0
            || (serial_vec[3] as usize) < serial_vec.len()) && (serial_vec[5] == 0 || (
        serial_vec[5] as usize) < serial_vec.len()) && (serial_vec[7] == 0 || span_in_bounds(
            &serial_vec,
            serial_vec[7],
            serial_vec[8],
        )) && (serial_vec[9] == 0 || span_in_bounds(&serial_vec, serial_vec[9], serial_vec[10]));
        if !inside {
            return Err(MalformedMessage::FieldOutOfBounds);
        }
        let operation = serial_vec[0] as i32;
        let name = match string_from_utf8(copy_span(&serial_vec, serial_vec[1], serial_vec[2])) {
            Ok(name) => name,
            Err(_) => {
                return Err(MalformedMessage::InvalidName);
            },
        };
        proof {
            encode_utf8_decode_utf8(name@);
        }

        let offset = if serial_vec[3] == 0 {
            None
        } else {
            Some(serial_vec[serial_vec[3] as usize] as i32)
        };

        let number = if serial_vec[5] == 0 {
            None
        } else {
            Some(serial_vec[serial_vec[5] as usize] as i32)
        };

        let sequence = if serial_vec[7] == 0 {
            None
        } else {
            Some(copy_span(&serial_vec, serial_vec[7], serial_vec[8]))
        };

        let content = if serial_vec[9] == 0 {
            None
        } else {
            Some(copy_span(&serial_vec, serial_vec[9], serial_vec[10]))
        };

        Ok(SerialMessage { operation, name, offset, number, sequence, content })
    }
}

} // verus!
