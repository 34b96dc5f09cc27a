use vstd::prelude::*;
use crate::symbol_table::{SymbolState, SymbolTable};
use crate::text::same_text;

verus! {

/// The seven bits (the `a` bit, then the six ALU control bits) of each computation.
pub open spec fn comp_code(m: Seq<char>) -> Option<Seq<char>> {
    if m == "0"@ {
        Some("0101010"@)
    } else if m == "1"@ {
        Some("0111111"@)
    } else if m == "-1"@ {
        Some("0111010"@)
    } else if m == "D"@ {
        Some("0001100"@)
    } else if m == "A"@ {
        Some("0110000"@)
    } else if m == "!D"@ {
        Some("0001101"@)
    } else if m == "!A"@ {
        Some("0110001"@)
    } else if m == "-D"@ {
        Some("0001111"@)
    } else if m == "-A"@ {
        Some("0110011"@)
    } else if m == "D+1"@ {
        Some("0011111"@)
    } else if m == "A+1"@ {
        Some("0110111"@)
    } else if m == "D-1"@ {
        Some("0001110"@)
    } else if m == "A-1"@ {
        Some("0110010"@)
    } else if m == "D+A"@ {
        Some("0000010"@)
    } else if m == "D-A"@ {
        Some("0010011"@)
    } else if m == "A-D"@ {
        Some("0000111"@)
    } else if m == "D&A"@ {
        Some("0000000"@)
    } else if m == "D|A"@ {
        Some("0010101"@)
    } else if m == "M"@ {
        Some("1110000"@)
    } else if m == "!M"@ {
        Some("1110001"@)
    } else if m == "-M"@ {
        Some("1110011"@)
    } else if m == "M+1"@ {
        Some("1110111"@)
    } else if m == "M-1"@ {
        Some("1110010"@)
    } else if m == "D+M"@ {
        Some("1000010"@)
    } else if m == "D-M"@ {
        Some("1010011"@)
    } else if m == "M-D"@ {
        Some("1000111"@)
    } else if m == "D&M"@ {
        Some("1000000"@)
    } else if m == "D|M"@ {
        Some("1010101"@)
    } else {
        None
    }
}

/// The three bits of each destination; `null` stands for none.
pub open spec fn dest_code(m: Seq<char>) -> Option<Seq<char>> {
    if m == "null"@ {
        Some("000"@)
    } else if m == "M"@ {
        Some("001"@)
    } else if m == "D"@ {
        Some("010"@)
    } else if m == "MD"@ {
        Some("011"@)
    } else if m == "A"@ {
        Some("100"@)
    } else if m == "AM"@ {
        Some("101"@)
    } else if m == "AD"@ {
        Some("110"@)
    } else if m == "AMD"@ {
        Some("111"@)
    } else {
        None
    }
}

/// The three bits of each jump condition; `null` stands for none.
pub open spec fn jump_code(m: Seq<char>) -> Option<Seq<char>> {
    if m == "null"@ {
        Some("000"@)
    } else if m == "JGT"@ {
        Some("001"@)
    } else if m == "JEQ"@ {
        Some("010"@)
    } else if m == "JGE"@ {
        Some("011"@)
    } else if m == "JLT"@ {
        Some("100"@)
    } else if m == "JNE"@ {
        Some("101"@)
    } else if m == "JLE"@ {
        Some("110"@)
    } else if m == "JMP"@ {
        Some("111"@)
    } else {
        None
    }
}

fn comp_bits(m: &str) -> (r: Option<&'static str>)
    ensures
        r.deep_view() == comp_code(m@),
{
    if same_text(m, "0") {
        Some("0101010")
    } else if same_text(m, "1") {
        Some("0111111")
    } else if same_text(m, "-1") {
        Some("0111010")
    } else if same_text(m, "D") {
        Some("0001100")
    } else if same_text(m, "A") {
        Some("0110000")
    } else if same_text(m, "!D") {
        Some("0001101")
    } else if same_text(m, "!A") {
        Some("0110001")
    } else if same_text(m, "-D") {
        Some("0001111")
    } else if same_text(m, "-A") {
        Some("0110011")
    } else if same_text(m, "D+1") {
        Some("0011111")
    } else if same_text(m, "A+1") {
        Some("0110111")
    } else if same_text(m, "D-1") {
        Some("0001110")
    } else if same_text(m, "A-1") {
        Some("0110010")
    } else if same_text(m, "D+A") {
        Some("0000010")
    } else if same_text(m, "D-A") {
        Some("0010011")
    } else if same_text(m, "A-D") {
        Some("0000111")
    } else if same_text(m, "D&A") {
        Some("0000000")
    } else if same_text(m, "D|A") {
        Some("0010101")
    } else if same_text(m, "M") {
        Some("1110000")
    } else if same_text(m, "!M") {
        Some("1110001")
    } else if same_text(m, "-M") {
        Some("1110011")
    } else if same_text(m, "M+1") {
        Some("1110111")
    } else if same_text(m, "M-1") {
        Some("1110010")
    } else if same_text(m, "D+M") {
        Some("1000010")
    } else if same_text(m, "D-M") {
        Some("1010011")
    } else if same_text(m, "M-D") {
        Some("1000111")
    } else if same_text(m, "D&M") {
        Some("1000000")
    } else if same_text(m, "D|M") {
        Some("1010101")
    } else {
        None
    }
}

fn dest_bits(m: &str) -> (r: Option<&'static str>)
    ensures
        r.deep_view() == dest_code(m@),
{
    if same_text(m, "null") {
        Some("000")
    } else if same_text(m, "M") {
        Some("001")
    } else if same_text(m, "D") {
        Some("010")
    } else if same_text(m, "MD") {
        Some("011")
    } else if same_text(m, "A") {
        Some("100")
    } else if same_text(m, "AM") {
        Some("101")
    } else if same_text(m, "AD") {
        Some("110")
    } else if same_text(m, "AMD") {
        Some("111")
    } else {
        None
    }
}

fn jump_bits(m: &str) -> (r: Option<&'static str>)
    ensures
        r.deep_view() == jump_code(m@),
{
    if same_text(m, "null") {
        Some("000")
    } else if same_text(m, "JGT") {
        Some("001")
    } else if same_text(m, "JEQ") {
        Some("010")
    } else if same_text(m, "JGE") {
        Some("011")
    } else if same_text(m, "JLT") {
        Some("100")
    } else if same_text(m, "JNE") {
        Some("101")
    } else if same_text(m, "JLE") {
        Some("110")
    } else if same_text(m, "JMP") {
        Some("111")
    } else {
        None
    }
}

/// The largest value that an address instruction can carry: 15 bits.
pub const MAX_ADDRESS: u64 = 32767;

/// The character of a bit.
pub open spec fn bit_char(b: nat) -> char {
    if b == 0 {
        '0'
    } else {
        '1'
    }
}

/// The lowest `w` bits of `v` in binary, most significant first.
pub open spec fn binary(v: nat, w: nat) -> Seq<char>
    decreases w,
{
    if w == 0 {
        Seq::empty()
    } else {
        binary(v / 2, (w - 1) as nat).push(bit_char(v % 2))
    }
}

/// Whether `c` is a decimal digit.
pub open spec fn is_digit(c: char) -> bool {
    '0' <= c && c <= '9'
}

/// Whether `s` is a non-negative decimal integer: one or more digits.
pub open spec fn is_decimal(s: Seq<char>) -> bool {
    s.len() > 0 && forall|i: int| 0 <= i < s.len() ==> is_digit(#[trigger] s[i])
}

/// The value of a string of decimal digits.
pub open spec fn decimal_value(s: Seq<char>) -> nat
    decreases s.len(),
{
    if s.len() == 0 {
        0
    } else {
        decimal_value(s.drop_last()) * 10 + (s.last() as nat - '0' as nat) as nat
    }
}

/// The value an address operand stands for: the number it spells, or the
/// address its symbol resolves to.
pub open spec fn operand_value(table: SymbolState, operand: Seq<char>) -> nat {
    if is_decimal(operand) {
        decimal_value(operand)
    } else {
        table.address_of(operand)
    }
}

/// The sixteen-character encoding of an address operand, or `None` when its
/// value exceeds 15 bits.
pub open spec fn address_code(table: SymbolState, operand: Seq<char>) -> Option<Seq<char>> {
    let v = operand_value(table, operand);
    if v <= MAX_ADDRESS {
        Some(binary(v, 16))
    } else {
        None
    }
}

/// Whether `operand` is a new symbol that the variable cursor can no longer
/// serve: the cursor stands at the largest `u64`.
pub open spec fn cursor_exhausted(table: SymbolState, operand: Seq<char>) -> bool {
    !table.bindings.contains_key(operand) && table.next >= u64::MAX
}

/// The symbol table after encoding an address operand: a symbol is resolved,
/// so a new one takes the next variable address, whether or not that address
/// then fits in 15 bits. A decimal operand leaves the table as it is, and so
/// does a new symbol once the cursor is exhausted.
pub open spec fn address_table(table: SymbolState, operand: Seq<char>) -> SymbolState {
    if is_decimal(operand) || cursor_exhausted(table, operand) {
        table
    } else {
        table.resolve(operand)
    }
}

/// Returns the value of `s` when it is a decimal integer: `Some(v)` with
/// `v == decimal_value(s@)` when that is at most `MAX_ADDRESS`, `Some(v)` with
/// some `v` above it otherwise; `None` when `s` is not decimal.
fn parse_decimal(s: &str) -> (r: Option<u64>)
    ensures
        r is Some <==> is_decimal(s@),
        r matches Some(v) ==> (v <= MAX_ADDRESS <==> decimal_value(s@) <= MAX_ADDRESS),
        r matches Some(v) ==> (v <= MAX_ADDRESS ==> v == decimal_value(s@)),
{
    let n = s.unicode_len();
    if n == 0 {
        return None;
    }
    let mut acc: u64 = 0;
    let mut i: usize = 0;
    while i < n
        invariant
            n == s@.len(),
            i <= n,
            forall|j: int| 0 <= j < i ==> is_digit(#[trigger] s@[j]),
            acc <= MAX_ADDRESS ==> acc == decimal_value(s@.take(i as int)),
            acc > MAX_ADDRESS ==> decimal_value(s@.take(i as int)) > MAX_ADDRESS,
            acc <= 10 * MAX_ADDRESS + 9,
        decreases n - i,
    {
        let c = s.get_char(i);
        if !('0' <= c && c <= '9') {
            return None;
        }
        assert(s@.take(i + 1).drop_last() =~= s@.take(i as int));
        let d = (c as u32 - '0' as u32) as u64;
        if acc <= MAX_ADDRESS {
            acc = acc * 10 + d;
        }
        i = i + 1;
    }
    assert(s@.take(n as int) =~= s@);
    Some(acc)
}

/// The sixteen characters of `v` in binary.
fn binary16(v: u64) -> (r: String)
    ensures
        r@ == binary(v as nat, 16),
{
    let mut digits: Vec<char> = vec!['0'; 16];
    let mut rem: u64 = v;
    let mut i: usize = 16;
    while i > 0
        invariant
            digits@.len() == 16,
            forall|k: int| 0 <= k < 16 ==> #[trigger] digits@[k] == '0' || digits@[k] == '1',
            i <= 16,
            binary(v as nat, 16) == binary(rem as nat, i as nat) + digits@.subrange(i as int, 16),
        decreases i,
    {
        let c = if rem % 2 == 0 { '0' } else { '1' };
        let ghost old_digits = digits@;
        digits.set(i - 1, c);
        assert(digits@.subrange(i - 1, 16) =~= seq![c] + old_digits.subrange(i as int, 16));
        assert(binary(rem as nat, i as nat) == binary((rem / 2) as nat, (i - 1) as nat).push(c));
        assert(binary((rem / 2) as nat, (i - 1) as nat).push(c) + old_digits.subrange(i as int, 16)
            =~= binary((rem / 2) as nat, (i - 1) as nat) + digits@.subrange(i - 1, 16));
        rem = rem / 2;
        i = i - 1;
    }
    assert(digits@.subrange(0, 16) =~= digits@);
    let mut r = String::new();
    let mut j: usize = 0;
    proof {
        reveal_strlit("0");
        reveal_strlit("1");
    }
    while j < 16
        invariant
            digits@.len() == 16,
            forall|k: int| 0 <= k < 16 ==> #[trigger] digits@[k] == '0' || digits@[k] == '1',
            j <= 16,
            r@ == digits@.take(j as int),
            "0"@ == seq!['0'],
            "1"@ == seq!['1'],
        decreases 16 - j,
    {
        if digits[j] == '0' {
            r.append("0");
        } else {
            r.append("1");
        }
        assert(r@ =~= digits@.take(j + 1));
        j = j + 1;
    }
    assert(digits@.take(16) =~= digits@);
    r
}

/// Turns mnemonics and address operands into bits, resolving symbols
/// through the table it holds.
pub struct Encoder {
    table: SymbolTable,
}

impl View for Encoder {
    type V = SymbolState;

    closed spec fn view(&self) -> SymbolState {
        self.table@
    }
}

/// An owned copy of an optional text.
fn text_of(s: Option<&'static str>) -> (r: Option<String>)
    ensures
        r.deep_view() == s.deep_view(),
{
    match s {
        Some(t) => Some(t.to_owned()),
        None => None,
    }
}

impl Encoder {
    /// An encoder that resolves symbols through `table`.
    pub fn new(table: SymbolTable) -> (r: Encoder)
        ensures
            r@ == table@,
    {
        Encoder { table }
    }

    /// The symbol table, as encoding has left it.
    pub fn into_table(self) -> (r: SymbolTable)
        ensures
            r@ == self@,
    {
        self.table
    }

    /// The seven bits of a computation, or `None` for an unknown mnemonic.
    pub fn encode_comp(&self, comp: &str) -> (r: Option<String>)
        ensures
            r.deep_view() == comp_code(comp@),
    {
        text_of(comp_bits(comp))
    }

    /// The three bits of a destination, or `None` for an unknown mnemonic.
    pub fn encode_dest(&self, dest: &str) -> (r: Option<String>)
        ensures
            r.deep_view() == dest_code(dest@),
    {
        text_of(dest_bits(dest))
    }

    /// The three bits of a jump condition, or `None` for an unknown mnemonic.
    pub fn encode_jump(&self, jump: &str) -> (r: Option<String>)
        ensures
            r.deep_view() == jump_code(jump@),
    {
        text_of(jump_bits(jump))
    }

    /// The sixteen bits of an address instruction. A decimal operand is taken
    /// as it is; any other is a symbol, resolved through the table, which binds
    /// a new one to the next variable address. `None` when the value does not
    /// fit in 15 bits.
    pub fn encode_ACommand(&mut self, address: &str) -> (r: Option<String>)
        ensures
            r.deep_view() == address_code(old(self)@, address@),
            final(self)@ == address_table(old(self)@, address@),
    {
        let value = match parse_decimal(address) {
            Some(v) => v,
            None => {
                if self.table.lookup(address).is_none() && self.table.next_address() == u64::MAX {
                    return None;
                }
                self.table.get_symbol(address)
            },
        };
        if value > MAX_ADDRESS {
            return None;
        }
        Some(binary16(value))
    }
}

/// Whether `s` is `w` characters, each `0` or `1`.
pub open spec fn is_bits(s: Seq<char>, w: nat) -> bool {
    s.len() == w && forall|i: int| 0 <= i < s.len() ==> (#[trigger] s[i] == '0' || s[i] == '1')
}

/// Law: every computation code is seven bits.
pub proof fn lemma_comp_codes_are_bits(m: Seq<char>)
    ensures
        comp_code(m) matches Some(b) ==> is_bits(b, 7),
{
    reveal_strlit("0101010");
    reveal_strlit("0111111");
    reveal_strlit("0111010");
    reveal_strlit("0001100");
    reveal_strlit("0110000");
    reveal_strlit("0001101");
    reveal_strlit("0110001");
    reveal_strlit("0001111");
    reveal_strlit("0110011");
    reveal_strlit("0011111");
    reveal_strlit("0110111");
    reveal_strlit("0001110");
    reveal_strlit("0110010");
    reveal_strlit("0000010");
    reveal_strlit("0010011");
    reveal_strlit("0000111");
    reveal_strlit("0000000");
    reveal_strlit("0010101");
    reveal_strlit("1110000");
    reveal_strlit("1110001");
    reveal_strlit("1110011");
    reveal_strlit("1110111");
    reveal_strlit("1110010");
    reveal_strlit("1000010");
    reveal_strlit("1010011");
    reveal_strlit("1000111");
    reveal_strlit("1000000");
    reveal_strlit("1010101");
}

/// Law: every destination code and every jump code is three bits.
pub proof fn lemma_dest_jump_codes_are_bits(m: Seq<char>)
    ensures
        dest_code(m) matches Some(b) ==> is_bits(b, 3),
        jump_code(m) matches Some(b) ==> is_bits(b, 3),
{
    reveal_strlit("000");
    reveal_strlit("001");
    reveal_strlit("010");
    reveal_strlit("011");
    reveal_strlit("100");
    reveal_strlit("101");
    reveal_strlit("110");
    reveal_strlit("111");
}

/// Two to the power `n`.
pub open spec fn two_to(n: nat) -> nat
    decreases n,
{
    if n == 0 {
        1
    } else {
        2 * two_to((n - 1) as nat)
    }
}

proof fn lemma_binary_bits(v: nat, w: nat)
    ensures
        is_bits(binary(v, w), w),
    decreases w,
{
    if w > 0 {
        lemma_binary_bits(v / 2, (w - 1) as nat);
    }
}

proof fn lemma_binary_leading_zero(v: nat, w: nat)
    requires
        w >= 1,
        v < two_to((w - 1) as nat),
    ensures
        binary(v, w)[0] == '0',
    decreases w,
{
    lemma_binary_bits(v, w);
    if w > 1 {
        lemma_binary_leading_zero(v / 2, (w - 1) as nat);
        lemma_binary_bits(v / 2, (w - 1) as nat);
    }
}

/// Law: an address instruction is sixteen bits, the first of them `0`.
pub proof fn lemma_address_code_shape(table: SymbolState, operand: Seq<char>)
    ensures
        address_code(table, operand) matches Some(b) ==> is_bits(b, 16) && b[0] == '0',
{
    let v = operand_value(table, operand);
    lemma_binary_bits(v, 16);
    if v <= MAX_ADDRESS {
        reveal_with_fuel(two_to, 16);
        lemma_binary_leading_zero(v, 16);
    }
}

} // verus!
