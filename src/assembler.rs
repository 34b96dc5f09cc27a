use vstd::prelude::*;
use crate::encoder::{
    address_code, address_table, comp_code, dest_code, is_bits, jump_code, lemma_address_code_shape,
    lemma_comp_codes_are_bits, lemma_dest_jump_codes_are_bits, Encoder,
};
use crate::parser::{
    command_lines, lemma_ignored_line, lemma_parse_command_lines, parse_line, parse_lines, text_views, CommandType,
    CommandView, Parser,
};
use crate::symbol_table::{initial_state, SymbolState, SymbolTable};

verus! {

/// Why a translation stopped.
#[derive(Clone, Copy, Debug, PartialEq, Eq, Structural)]
pub enum AsmError {
    /// The source holds no command.
    EmptyProgram,
    /// An address command without an operand, or a compute command without a
    /// computation.
    MalformedCommand,
    /// A computation, destination or jump that the tables do not hold.
    UnknownMnemonic,
    /// An address operand whose value does not fit in 15 bits.
    AddressOutOfRange,
    /// A label whose name is already bound.
    DuplicateLabel,
}

/// The first pass: binds each label to the number of instructions before it,
/// counting from `counter`.
pub open spec fn label_pass(cmds: Seq<CommandView>, table: SymbolState, counter: nat) -> Result<SymbolState, AsmError>
    decreases cmds.len(),
{
    if cmds.len() == 0 {
        Ok(table)
    } else {
        let c = cmds[0];
        match c.c_type {
            CommandType::LCommand => match c.symbol {
                Some(name) => if table.bindings.contains_key(name) {
                    Err(AsmError::DuplicateLabel)
                } else {
                    label_pass(cmds.drop_first(), table.bind_label(name, counter), counter)
                },
                None => Err(AsmError::MalformedCommand),
            },
            _ => label_pass(cmds.drop_first(), table, counter + 1),
        }
    }
}

/// A destination or jump field, with `null` when it is absent.
pub open spec fn or_null(field: Option<Seq<char>>) -> Seq<char> {
    match field {
        Some(f) => f,
        None => "null"@,
    }
}

/// The sixteen bits of a compute command: `111`, then its computation,
/// destination and jump.
pub open spec fn compute_code(c: CommandView) -> Result<Seq<char>, AsmError> {
    match c.comp {
        Some(comp) => if comp.len() == 0 {
            Err(AsmError::MalformedCommand)
        } else {
            match (comp_code(comp), dest_code(or_null(c.dest)), jump_code(or_null(c.jump))) {
                (Some(a), Some(d), Some(j)) => Ok("111"@ + a + d + j),
                _ => Err(AsmError::UnknownMnemonic),
            }
        },
        None => Err(AsmError::MalformedCommand),
    }
}

/// `line` in front of the lines of `rest`, when it holds lines.
pub open spec fn prepend(line: Seq<char>, rest: Result<Seq<Seq<char>>, AsmError>) -> Result<Seq<Seq<char>>, AsmError> {
    match rest {
        Ok(ls) => Ok(seq![line] + ls),
        Err(e) => Err(e),
    }
}

/// The second pass: the lines that the commands give, in order, resolving
/// symbols through `table`; the first failure ends it.
pub open spec fn emit(cmds: Seq<CommandView>, table: SymbolState) -> Result<Seq<Seq<char>>, AsmError>
    decreases cmds.len(),
{
    if cmds.len() == 0 {
        Ok(Seq::empty())
    } else {
        let c = cmds[0];
        match c.c_type {
            CommandType::LCommand => emit(cmds.drop_first(), table),
            CommandType::ACommand => match c.symbol {
                Some(op) => if op.len() == 0 {
                    Err(AsmError::MalformedCommand)
                } else {
                    match address_code(table, op) {
                        Some(line) => prepend(line, emit(cmds.drop_first(), address_table(table, op))),
                        None => Err(AsmError::AddressOutOfRange),
                    }
                },
                None => Err(AsmError::MalformedCommand),
            },
            CommandType::CCommand => match compute_code(c) {
                Ok(line) => prepend(line, emit(cmds.drop_first(), table)),
                Err(e) => Err(e),
            },
        }
    }
}

/// The object lines of a source, or the first failure.
pub open spec fn assembly(lines: Seq<Seq<char>>) -> Result<Seq<Seq<char>>, AsmError> {
    let cmds = parse_lines(lines);
    if cmds.len() == 0 {
        Err(AsmError::EmptyProgram)
    } else {
        match label_pass(cmds, initial_state(), 0) {
            Ok(table) => emit(cmds, table),
            Err(e) => Err(e),
        }
    }
}

/// Law: a blank or comment-only line changes nothing in a translation: it
/// gives no line and takes no instruction address.
pub proof fn lemma_ignored_line_translation(before: Seq<Seq<char>>, line: Seq<char>, after: Seq<Seq<char>>)
    requires
        parse_line(line) is None,
    ensures
        assembly(before + seq![line] + after) == assembly(before + after),
{
    lemma_ignored_line(before, line, after);
}

/// Law: two sources with the same command lines, whatever blank and
/// comment-only lines stand between them, have the same commands, so both
/// passes, and the whole translation, give the same result for them.
pub proof fn lemma_same_command_lines_translation(a: Seq<Seq<char>>, b: Seq<Seq<char>>)
    requires
        command_lines(a) == command_lines(b),
    ensures
        parse_lines(a) == parse_lines(b),
        label_pass(parse_lines(a), initial_state(), 0) == label_pass(parse_lines(b), initial_state(), 0),
        assembly(a) == assembly(b),
{
    lemma_parse_command_lines(a);
    lemma_parse_command_lines(b);
}

/// Law: translating the same source twice, each time from the predefined
/// symbols, gives the same result.
pub proof fn lemma_translation_repeatable(
    lines: Seq<Seq<char>>,
    first: Result<Vec<String>, AsmError>,
    second: Result<Vec<String>, AsmError>,
)
    requires
        output_view(first) == assembly(lines),
        output_view(second) == assembly(lines),
    ensures
        output_view(first) == output_view(second),
{
}

/// Law: a compute instruction is sixteen bits, the first three of them `111`.
pub proof fn lemma_compute_code_shape(c: CommandView)
    ensures
        compute_code(c) matches Ok(b) ==> is_bits(b, 16) && b.take(3) == "111"@,
{
    reveal_strlit("111");
    if let Some(comp) = c.comp {
        lemma_comp_codes_are_bits(comp);
        lemma_dest_jump_codes_are_bits(or_null(c.dest));
        lemma_dest_jump_codes_are_bits(or_null(c.jump));
        if let Ok(b) = compute_code(c) {
            let (x, y, z) = (comp_code(comp)->0, dest_code(or_null(c.dest))->0, jump_code(or_null(c.jump))->0);
            assert(b == "111"@ + x + y + z);
            assert(b.take(3) =~= "111"@);
            assert forall|i: int| 0 <= i < b.len() implies (#[trigger] b[i] == '0' || b[i] == '1') by {
                if i < 3 {
                    assert(b[i] == "111"@[i]);
                } else if i < 10 {
                    assert(b[i] == x[i - 3]);
                } else if i < 13 {
                    assert(b[i] == y[i - 10]);
                } else {
                    assert(b[i] == z[i - 13]);
                }
            }
        }
    }
}

/// Law: every line that a translation gives is sixteen characters, each `0`
/// or `1`.
pub proof fn lemma_emitted_lines_are_bits(cmds: Seq<CommandView>, table: SymbolState)
    ensures
        emit(cmds, table) matches Ok(ls) ==> forall|i: int| 0 <= i < ls.len() ==> is_bits(#[trigger] ls[i], 16),
    decreases cmds.len(),
{
    if cmds.len() > 0 {
        let c = cmds[0];
        match c.c_type {
            CommandType::LCommand => lemma_emitted_lines_are_bits(cmds.drop_first(), table),
            CommandType::ACommand => {
                if let Some(op) = c.symbol {
                    lemma_address_code_shape(table, op);
                    lemma_emitted_lines_are_bits(cmds.drop_first(), address_table(table, op));
                }
            },
            CommandType::CCommand => {
                lemma_compute_code_shape(c);
                lemma_emitted_lines_are_bits(cmds.drop_first(), table);
            },
        }
        if let Ok(ls) = emit(cmds, table) {
            assert forall|i: int| 0 <= i < ls.len() implies is_bits(#[trigger] ls[i], 16) by {
                if i > 0 {
                    assert(ls[i] == ls.drop_first()[i - 1]);
                }
            }
        }
    }
}

/// Law: every line of a successful translation is sixteen characters, each
/// `0` or `1`.
pub proof fn lemma_assembly_lines_are_bits(lines: Seq<Seq<char>>)
    ensures
        assembly(lines) matches Ok(ls) ==> forall|i: int| 0 <= i < ls.len() ==> is_bits(#[trigger] ls[i], 16),
{
    let cmds = parse_lines(lines);
    if let Ok(table) = label_pass(cmds, initial_state(), 0) {
        lemma_emitted_lines_are_bits(cmds, table);
    }
}

/// The value of a translation's result.
pub open spec fn output_view(r: Result<Vec<String>, AsmError>) -> Result<Seq<Seq<char>>, AsmError> {
    match r {
        Ok(v) => Ok(v@.map_values(|s: String| s@)),
        Err(e) => Err(e),
    }
}

/// The first pass over the commands from the cursor on: binds each label to
/// the address of the instruction that follows it. Fails on a label whose
/// name is already bound.
pub fn update_table_with_L_symbols(parser: &mut Parser, table: &mut SymbolTable) -> (r: Result<(), AsmError>)
    ensures
        final(parser)@.commands == old(parser)@.commands,
        final(parser)@.cursor <= final(parser)@.commands.len(),
        r is Ok <==> label_pass(old(parser)@.commands.skip(old(parser)@.cursor as int), old(table)@, 0) is Ok,
        r is Ok ==> label_pass(old(parser)@.commands.skip(old(parser)@.cursor as int), old(table)@, 0)
            == Ok::<SymbolState, AsmError>(final(table)@),
        r matches Err(e) ==> label_pass(old(parser)@.commands.skip(old(parser)@.cursor as int), old(table)@, 0)
            == Err::<SymbolState, AsmError>(e),
{
    proof {
        parser.lemma_cursor_in_range();
    }
    let ghost cmds = parser@.commands;
    let ghost whole = label_pass(cmds.skip(parser@.cursor as int), table@, 0);
    let mut line_counter: usize = 0;
    let mut outcome: Result<(), AsmError> = Ok(());
    loop
        invariant_except_break
            outcome is Ok,
        invariant
            parser@.commands == cmds,
            parser@.cursor <= cmds.len(),
            line_counter <= parser@.cursor,
            whole == label_pass(cmds.skip(parser@.cursor as int), table@, line_counter as nat),
        ensures
            parser@.commands == cmds,
            parser@.cursor <= cmds.len(),
            outcome is Ok ==> whole == Ok::<SymbolState, AsmError>(table@),
            outcome matches Err(e) ==> whole == Err::<SymbolState, AsmError>(e),
        decreases cmds.len() - parser@.cursor,
    {
        let ghost at = parser@.cursor as int;
        match parser.command_type() {
            None => {
                assert(cmds.skip(at) =~= Seq::<CommandView>::empty());
                break;
            },
            Some(CommandType::LCommand) => {
                assert(cmds.skip(at).drop_first() =~= cmds.skip(at + 1));
                match parser.symbol() {
                    Some(name) => {
                        if table.add_L_symbol(name.as_str(), line_counter as u64).is_none() {
                            outcome = Err(AsmError::DuplicateLabel);
                            break;
                        }
                    },
                    None => {
                        outcome = Err(AsmError::MalformedCommand);
                        break;
                    },
                }
            },
            Some(_) => {
                assert(cmds.skip(at).drop_first() =~= cmds.skip(at + 1));
                line_counter = line_counter + 1;
            },
        }
        parser.advance();
    }
    outcome
}

/// `lines` in front of the lines of `rest`, when it holds lines.
pub open spec fn prepend_all(lines: Seq<Seq<char>>, rest: Result<Seq<Seq<char>>, AsmError>) -> Result<Seq<Seq<char>>, AsmError> {
    match rest {
        Ok(ls) => Ok(lines + ls),
        Err(e) => Err(e),
    }
}

proof fn lemma_prepend_push(lines: Seq<Seq<char>>, line: Seq<char>, rest: Result<Seq<Seq<char>>, AsmError>)
    ensures
        prepend_all(lines, prepend(line, rest)) == prepend_all(lines.push(line), rest),
{
    if let Ok(ls) = rest {
        assert(lines + (seq![line] + ls) =~= lines.push(line) + ls);
    }
}

/// The sixteen bits of the compute command under the cursor.
fn compute_line(enc: &Encoder, parser: &Parser) -> (r: Result<String, AsmError>)
    requires
        parser@.current() is Some,
    ensures
        r matches Ok(line) ==> compute_code(parser@.current()->0) == Ok::<Seq<char>, AsmError>(line@),
        r matches Err(e) ==> compute_code(parser@.current()->0) == Err::<Seq<char>, AsmError>(e),
{
    let comp = match parser.comp() {
        Some(c) => c,
        None => {
            return Err(AsmError::MalformedCommand);
        },
    };
    if comp.as_str().unicode_len() == 0 {
        return Err(AsmError::MalformedCommand);
    }
    let dest = match parser.dest() {
        Some(d) => d,
        None => "null".to_owned(),
    };
    let jump = match parser.jump() {
        Some(j) => j,
        None => "null".to_owned(),
    };
    let c_bits = enc.encode_comp(comp.as_str());
    let d_bits = enc.encode_dest(dest.as_str());
    let j_bits = enc.encode_jump(jump.as_str());
    match (c_bits, d_bits, j_bits) {
        (Some(c), Some(d), Some(j)) => {
            let mut line = "111".to_owned();
            line.append(c.as_str());
            line.append(d.as_str());
            line.append(j.as_str());
            Ok(line)
        },
        _ => Err(AsmError::UnknownMnemonic),
    }
}

/// The second pass over the commands from the cursor on: one line for each
/// address or compute command, in order; the first failure ends it.
pub fn emit_commands(parser: &mut Parser, enc: &mut Encoder) -> (r: Result<Vec<String>, AsmError>)
    ensures
        final(parser)@.commands == old(parser)@.commands,
        output_view(r) == emit(old(parser)@.commands.skip(old(parser)@.cursor as int), old(enc)@),
{
    proof {
        parser.lemma_cursor_in_range();
    }
    let ghost cmds = parser@.commands;
    let ghost whole = emit(cmds.skip(parser@.cursor as int), enc@);
    let mut out: Vec<String> = Vec::new();
    let mut outcome: Option<AsmError> = None;
    assert(out@.map_values(|s: String| s@) =~= Seq::<Seq<char>>::empty());
    assert(prepend_all(Seq::empty(), whole) == whole) by {
        if let Ok(ls) = whole {
            assert(Seq::<Seq<char>>::empty() + ls =~= ls);
        }
    }
    loop
        invariant_except_break
            outcome is None,
        invariant
            parser@.commands == cmds,
            parser@.cursor <= cmds.len(),
            whole == prepend_all(out@.map_values(|s: String| s@), emit(cmds.skip(parser@.cursor as int), enc@)),
        ensures
            parser@.commands == cmds,
            outcome is None ==> whole == Ok::<Seq<Seq<char>>, AsmError>(out@.map_values(|s: String| s@)),
            outcome matches Some(e) ==> whole == Err::<Seq<Seq<char>>, AsmError>(e),
        decreases cmds.len() - parser@.cursor,
    {
        let ghost at = parser@.cursor as int;
        let ghost before = out@.map_values(|s: String| s@);
        match parser.command_type() {
            None => {
                assert(cmds.skip(at) =~= Seq::<CommandView>::empty());
                assert(before + Seq::<Seq<char>>::empty() =~= before);
                break;
            },
            Some(CommandType::LCommand) => {
                assert(cmds.skip(at).drop_first() =~= cmds.skip(at + 1));
            },
            Some(CommandType::ACommand) => {
                assert(cmds.skip(at).drop_first() =~= cmds.skip(at + 1));
                let operand = match parser.symbol() {
                    Some(op) => op,
                    None => {
                        outcome = Some(AsmError::MalformedCommand);
                        break;
                    },
                };
                if operand.as_str().unicode_len() == 0 {
                    outcome = Some(AsmError::MalformedCommand);
                    break;
                }
                match enc.encode_ACommand(operand.as_str()) {
                    Some(line) => {
                        proof {
                            lemma_prepend_push(before, line@, emit(cmds.skip(at + 1), enc@));
                        }
                        out.push(line);
                        assert(out@.map_values(|s: String| s@) =~= before.push(line@));
                    },
                    None => {
                        outcome = Some(AsmError::AddressOutOfRange);
                        break;
                    },
                }
            },
            Some(CommandType::CCommand) => {
                assert(cmds.skip(at).drop_first() =~= cmds.skip(at + 1));
                match compute_line(enc, parser) {
                    Ok(line) => {
                        proof {
                            lemma_prepend_push(before, line@, emit(cmds.skip(at + 1), enc@));
                        }
                        out.push(line);
                        assert(out@.map_values(|s: String| s@) =~= before.push(line@));
                    },
                    Err(e) => {
                        outcome = Some(e);
                        break;
                    },
                }
            },
        }
        parser.advance();
    }
    match outcome {
        Some(e) => Err(e),
        None => Ok(out),
    }
}

/// Translates a source, given as its lines, into the lines of the object
/// image: labels are bound in a first pass, and instructions are encoded in a
/// second. Any failure ends the translation with no output.
pub fn assemble(lines: &Vec<String>) -> (r: Result<Vec<String>, AsmError>)
    ensures
        output_view(r) == assembly(text_views(lines@)),
{
    let mut parser = Parser::new(lines);
    if parser.command_type().is_none() {
        return Err(AsmError::EmptyProgram);
    }
    let mut table = SymbolTable::new();
    assert(parser@.commands.skip(0) =~= parser@.commands);
    match update_table_with_L_symbols(&mut parser, &mut table) {
        Ok(()) => {},
        Err(e) => {
            return Err(e);
        },
    }
    let mut enc = Encoder::new(table);
    parser.rewind();
    emit_commands(&mut parser, &mut enc)
}

} // verus!
