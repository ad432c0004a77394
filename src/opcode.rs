use vstd::prelude::*;

verus! {

/// The instruction tags of the bytecode.
#[allow(non_camel_case_types)]
#[derive(Clone, Copy, Debug, PartialEq, Eq, Structural)]
pub enum OPCode {
    VERSION,
    DEBUG,
    DEBUG_CODE,
    DEBUG_CODE_END,
    META_END,
    END,
    PUSH_NUM,
    PUSH_BOOL,
    PUSH_STRING,
    PUSH_VAR,
    PUSH_NIL,
    ADD,
    SUB,
    MULTIPLY,
    DIVIDE,
    ASSIGN,
    LT,
    GT,
    LTOREQ,
    GTOREQ,
    PRINT,
    POP,
    NULL,
}

/// What follows an opcode in the byte stream.
#[derive(Clone, Copy, Debug, PartialEq, Eq, Structural)]
pub enum OperandKind {
    /// Nothing.
    Empty,
    /// One byte (the version number, a boolean).
    Byte,
    /// Eight bytes: the bit pattern of a double, least significant byte first.
    Num,
    /// Bytes up to and including a `NULL` terminator.
    Text,
    /// Bytes up to and including a `DEBUG_CODE_END` marker.
    Source,
    /// One byte of source position when the program was built in debug mode, else nothing.
    Position,
}

/// The byte that encodes each opcode. `NULL` is zero so that it can terminate
/// strings; `DEBUG_CODE_END` is 0xff, which never occurs in UTF-8 text.
pub open spec fn spec_byte(op: OPCode) -> u8 {
    match op {
        OPCode::NULL => 0x00,
        OPCode::VERSION => 0x01,
        OPCode::DEBUG => 0x02,
        OPCode::DEBUG_CODE => 0x03,
        OPCode::META_END => 0x04,
        OPCode::END => 0x05,
        OPCode::PUSH_NUM => 0x06,
        OPCode::PUSH_BOOL => 0x07,
        OPCode::PUSH_STRING => 0x08,
        OPCode::PUSH_VAR => 0x09,
        OPCode::PUSH_NIL => 0x0a,
        OPCode::ADD => 0x0b,
        OPCode::SUB => 0x0c,
        OPCode::MULTIPLY => 0x0d,
        OPCode::DIVIDE => 0x0e,
        OPCode::ASSIGN => 0x0f,
        OPCode::LT => 0x10,
        OPCode::GT => 0x11,
        OPCode::LTOREQ => 0x12,
        OPCode::GTOREQ => 0x13,
        OPCode::PRINT => 0x14,
        OPCode::POP => 0x15,
        OPCode::DEBUG_CODE_END => 0xff,
    }
}

/// The opcode a byte encodes, if any.
pub open spec fn spec_from_byte(b: u8) -> Option<OPCode> {
    if b == 0x00 { Some(OPCode::NULL) }
    else if b == 0x01 { Some(OPCode::VERSION) }
    else if b == 0x02 { Some(OPCode::DEBUG) }
    else if b == 0x03 { Some(OPCode::DEBUG_CODE) }
    else if b == 0x04 { Some(OPCode::META_END) }
    else if b == 0x05 { Some(OPCode::END) }
    else if b == 0x06 { Some(OPCode::PUSH_NUM) }
    else if b == 0x07 { Some(OPCode::PUSH_BOOL) }
    else if b == 0x08 { Some(OPCode::PUSH_STRING) }
    else if b == 0x09 { Some(OPCode::PUSH_VAR) }
    else if b == 0x0a { Some(OPCode::PUSH_NIL) }
    else if b == 0x0b { Some(OPCode::ADD) }
    else if b == 0x0c { Some(OPCode::SUB) }
    else if b == 0x0d { Some(OPCode::MULTIPLY) }
    else if b == 0x0e { Some(OPCode::DIVIDE) }
    else if b == 0x0f { Some(OPCode::ASSIGN) }
    else if b == 0x10 { Some(OPCode::LT) }
    else if b == 0x11 { Some(OPCode::GT) }
    else if b == 0x12 { Some(OPCode::LTOREQ) }
    else if b == 0x13 { Some(OPCode::GTOREQ) }
    else if b == 0x14 { Some(OPCode::PRINT) }
    else if b == 0x15 { Some(OPCode::POP) }
    else if b == 0xff { Some(OPCode::DEBUG_CODE_END) }
    else { None }
}

/// The operand that each opcode carries: the one table that both the emitter
/// and the engine follow.
pub open spec fn spec_operand(op: OPCode) -> OperandKind {
    match op {
        OPCode::VERSION => OperandKind::Byte,
        OPCode::DEBUG_CODE => OperandKind::Source,
        OPCode::PUSH_NUM => OperandKind::Num,
        OPCode::PUSH_BOOL => OperandKind::Byte,
        OPCode::PUSH_STRING => OperandKind::Text,
        OPCode::PUSH_VAR | OPCode::ADD | OPCode::SUB | OPCode::MULTIPLY | OPCode::DIVIDE
        | OPCode::ASSIGN | OPCode::LT | OPCode::GT | OPCode::LTOREQ | OPCode::GTOREQ
        | OPCode::PRINT => OperandKind::Position,
        _ => OperandKind::Empty,
    }
}

/// Whether an opcode is one of the binary operators.
pub open spec fn spec_is_binary(op: OPCode) -> bool {
    match op {
        OPCode::ADD | OPCode::SUB | OPCode::MULTIPLY | OPCode::DIVIDE | OPCode::ASSIGN
        | OPCode::LT | OPCode::GT | OPCode::LTOREQ | OPCode::GTOREQ => true,
        _ => false,
    }
}

/// Decoding a byte inverts encoding.
pub proof fn lemma_byte_round_trip(op: OPCode)
    ensures
        spec_from_byte(spec_byte(op)) == Some(op),
{
}

/// The eight bytes that encode a number's bit pattern, least significant first.
pub open spec fn spec_num_bytes(n: u64) -> Seq<u8> {
    seq![
        (n & 0xff) as u8,
        ((n >> 8u64) & 0xff) as u8,
        ((n >> 16u64) & 0xff) as u8,
        ((n >> 24u64) & 0xff) as u8,
        ((n >> 32u64) & 0xff) as u8,
        ((n >> 40u64) & 0xff) as u8,
        ((n >> 48u64) & 0xff) as u8,
        ((n >> 56u64) & 0xff) as u8,
    ]
}

/// The number whose bit pattern is held in the eight bytes at `at`, least significant first.
pub open spec fn spec_read_num(s: Seq<u8>, at: int) -> u64 {
    (s[at] as u64) | ((s[at + 1] as u64) << 8u64) | ((s[at + 2] as u64) << 16u64) | ((s[at + 3] as u64) << 24u64)
        | ((s[at + 4] as u64) << 32u64) | ((s[at + 5] as u64) << 40u64) | ((s[at + 6] as u64) << 48u64)
        | ((s[at + 7] as u64) << 56u64)
}

/// Reading back the bytes of a number gives the number.
pub proof fn lemma_num_round_trip(n: u64)
    ensures
        spec_read_num(spec_num_bytes(n), 0) == n,
{
    assert(((n & 0xff) as u8) as u64 | ((((n >> 8u64) & 0xff) as u8) as u64) << 8u64
        | ((((n >> 16u64) & 0xff) as u8) as u64) << 16u64 | ((((n >> 24u64) & 0xff) as u8) as u64) << 24u64
        | ((((n >> 32u64) & 0xff) as u8) as u64) << 32u64 | ((((n >> 40u64) & 0xff) as u8) as u64) << 40u64
        | ((((n >> 48u64) & 0xff) as u8) as u64) << 48u64 | ((((n >> 56u64) & 0xff) as u8) as u64) << 56u64
        == n) by (bit_vector);
}

/// The eight bytes that encode a number.
pub fn num_bytes(n: u64) -> (r: Vec<u8>)
    ensures
        r@ == spec_num_bytes(n),
{
    let r: Vec<u8> = vec![
        (n & 0xff) as u8,
        ((n >> 8u64) & 0xff) as u8,
        ((n >> 16u64) & 0xff) as u8,
        ((n >> 24u64) & 0xff) as u8,
        ((n >> 32u64) & 0xff) as u8,
        ((n >> 40u64) & 0xff) as u8,
        ((n >> 48u64) & 0xff) as u8,
        ((n >> 56u64) & 0xff) as u8,
    ];
    assert(r@ =~= spec_num_bytes(n));
    r
}

/// The number encoded by the eight bytes at `at`.
pub fn read_num(s: &Vec<u8>, at: usize) -> (r: u64)
    requires
        at + 8 <= s@.len(),
    ensures
        r == spec_read_num(s@, at as int),
{
    assert(s@.len() == s.len());
    (s[at] as u64) | ((s[at + 1] as u64) << 8u64) | ((s[at + 2] as u64) << 16u64) | ((s[at + 3] as u64) << 24u64)
        | ((s[at + 4] as u64) << 32u64) | ((s[at + 5] as u64) << 40u64) | ((s[at + 6] as u64) << 48u64)
        | ((s[at + 7] as u64) << 56u64)
}

impl OPCode {
    /// The byte that encodes this opcode.
    pub fn byte(&self) -> (r: u8)
        ensures
            r == spec_byte(*self),
    {
        match self {
            OPCode::NULL => 0x00,
            OPCode::VERSION => 0x01,
            OPCode::DEBUG => 0x02,
            OPCode::DEBUG_CODE => 0x03,
            OPCode::META_END => 0x04,
            OPCode::END => 0x05,
            OPCode::PUSH_NUM => 0x06,
            OPCode::PUSH_BOOL => 0x07,
            OPCode::PUSH_STRING => 0x08,
            OPCode::PUSH_VAR => 0x09,
            OPCode::PUSH_NIL => 0x0a,
            OPCode::ADD => 0x0b,
            OPCode::SUB => 0x0c,
            OPCode::MULTIPLY => 0x0d,
            OPCode::DIVIDE => 0x0e,
            OPCode::ASSIGN => 0x0f,
            OPCode::LT => 0x10,
            OPCode::GT => 0x11,
            OPCode::LTOREQ => 0x12,
            OPCode::GTOREQ => 0x13,
            OPCode::PRINT => 0x14,
            OPCode::POP => 0x15,
            OPCode::DEBUG_CODE_END => 0xff,
        }
    }

    /// The opcode that a byte encodes, or `None` for a byte that encodes none.
    pub fn from_byte(b: u8) -> (r: Option<OPCode>)
        ensures
            r == spec_from_byte(b),
    {
        match b {
            0x00 => Some(OPCode::NULL),
            0x01 => Some(OPCode::VERSION),
            0x02 => Some(OPCode::DEBUG),
            0x03 => Some(OPCode::DEBUG_CODE),
            0x04 => Some(OPCode::META_END),
            0x05 => Some(OPCode::END),
            0x06 => Some(OPCode::PUSH_NUM),
            0x07 => Some(OPCode::PUSH_BOOL),
            0x08 => Some(OPCode::PUSH_STRING),
            0x09 => Some(OPCode::PUSH_VAR),
            0x0a => Some(OPCode::PUSH_NIL),
            0x0b => Some(OPCode::ADD),
            0x0c => Some(OPCode::SUB),
            0x0d => Some(OPCode::MULTIPLY),
            0x0e => Some(OPCode::DIVIDE),
            0x0f => Some(OPCode::ASSIGN),
            0x10 => Some(OPCode::LT),
            0x11 => Some(OPCode::GT),
            0x12 => Some(OPCode::LTOREQ),
            0x13 => Some(OPCode::GTOREQ),
            0x14 => Some(OPCode::PRINT),
            0x15 => Some(OPCode::POP),
            0xff => Some(OPCode::DEBUG_CODE_END),
            _ => None,
        }
    }

    /// The operand that follows this opcode in the byte stream.
    pub fn operand(&self) -> (r: OperandKind)
        ensures
            r == spec_operand(*self),
    {
        match self {
            OPCode::VERSION => OperandKind::Byte,
            OPCode::DEBUG_CODE => OperandKind::Source,
            OPCode::PUSH_NUM => OperandKind::Num,
            OPCode::PUSH_BOOL => OperandKind::Byte,
            OPCode::PUSH_STRING => OperandKind::Text,
            OPCode::PUSH_VAR | OPCode::ADD | OPCode::SUB | OPCode::MULTIPLY | OPCode::DIVIDE
            | OPCode::ASSIGN | OPCode::LT | OPCode::GT | OPCode::LTOREQ | OPCode::GTOREQ
            | OPCode::PRINT => OperandKind::Position,
            _ => OperandKind::Empty,
        }
    }
}

} // verus!
