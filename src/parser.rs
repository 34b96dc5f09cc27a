use vstd::prelude::*;
use crate::text::{
    blank_prefix_end, blank_suffix_start, comment_from, comment_start, find_char, index_from, is_blank,
    strip_comment, trim, trim_blanks,
};

verus! {

/// The three shapes of a command.
#[derive(Clone, Copy, Debug, PartialEq, Eq, Structural)]
pub enum CommandType {
    ACommand,
    CCommand,
    LCommand,
}

/// One classified source line.
#[derive(Debug)]
pub struct Command {
    pub c_type: CommandType,
    pub symbol: Option<String>,
    pub dest: Option<String>,
    pub comp: Option<String>,
    pub jump: Option<String>,
}

/// The mathematical value of a `Command`.
pub struct CommandView {
    pub c_type: CommandType,
    pub symbol: Option<Seq<char>>,
    pub dest: Option<Seq<char>>,
    pub comp: Option<Seq<char>>,
    pub jump: Option<Seq<char>>,
}

impl View for Command {
    type V = CommandView;

    open spec fn view(&self) -> CommandView {
        CommandView {
            c_type: self.c_type,
            symbol: self.symbol.deep_view(),
            dest: self.dest.deep_view(),
            comp: self.comp.deep_view(),
            jump: self.jump.deep_view(),
        }
    }
}

/// The value of an optional command.
pub open spec fn option_view(c: Option<Command>) -> Option<CommandView> {
    match c {
        Some(c) => Some(c@),
        None => None,
    }
}

/// The name of a label: the text after `(`, without a closing `)`.
pub open spec fn label_name(body: Seq<char>) -> Seq<char> {
    if body.len() >= 2 && body.last() == ')' {
        body.subrange(1, body.len() - 1)
    } else {
        body.drop_first()
    }
}

/// The fields of a compute command: the text before the first `=` is the
/// destination, the text after the first `;` the jump, and the computation
/// what lies between (empty when the two delimiters cross).
pub open spec fn compute_fields(s: Seq<char>) -> CommandView {
    let n = s.len() as int;
    let eq = index_from(s, '=', 0);
    let sc = index_from(s, ';', 0);
    let start = if eq < n { eq + 1 } else { 0 };
    let end = if sc < n { sc } else { n };
    CommandView {
        c_type: CommandType::CCommand,
        symbol: None,
        dest: if eq < n { Some(s.take(eq)) } else { None },
        comp: Some(if start <= end { s.subrange(start, end) } else { Seq::empty() }),
        jump: if sc < n { Some(s.skip(sc + 1)) } else { None },
    }
}

/// The command on a source line, or `None` for a blank or comment-only line.
pub open spec fn parse_line(line: Seq<char>) -> Option<CommandView> {
    let body = trim(strip_comment(line));
    if body.len() == 0 {
        None
    } else if body[0] == '(' {
        Some(
            CommandView {
                c_type: CommandType::LCommand,
                symbol: Some(label_name(body)),
                dest: None,
                comp: None,
                jump: None,
            },
        )
    } else if body[0] == '@' {
        Some(
            CommandView {
                c_type: CommandType::ACommand,
                symbol: Some(body.drop_first()),
                dest: None,
                comp: None,
                jump: None,
            },
        )
    } else {
        Some(compute_fields(body))
    }
}

/// The commands of a source, in order, without its blank and comment lines.
pub open spec fn parse_lines(lines: Seq<Seq<char>>) -> Seq<CommandView>
    decreases lines.len(),
{
    if lines.len() == 0 {
        Seq::empty()
    } else {
        let rest = parse_lines(lines.drop_last());
        match parse_line(lines.last()) {
            Some(c) => rest.push(c),
            None => rest,
        }
    }
}

proof fn lemma_blank_prefix_end(s: Seq<char>, i: int)
    requires
        0 <= i <= s.len(),
        forall|j: int| i <= j < s.len() ==> is_blank(#[trigger] s[j]),
    ensures
        blank_prefix_end(s, i) == s.len(),
    decreases s.len() - i,
{
    if i < s.len() {
        lemma_blank_prefix_end(s, i + 1);
    }
}

proof fn lemma_comment_from(s: Seq<char>, i: int, k: int)
    requires
        0 <= i <= k,
        k + 1 < s.len(),
        s[k] == '/' && s[k + 1] == '/',
        forall|j: int| i <= j < k ==> is_blank(#[trigger] s[j]),
    ensures
        comment_from(s, i) == k,
    decreases k - i,
{
    if i < k {
        lemma_comment_from(s, i + 1, k);
    }
}

/// Law: a line of blanks alone is no command.
pub proof fn lemma_blank_line(line: Seq<char>)
    requires
        forall|i: int| 0 <= i < line.len() ==> is_blank(#[trigger] line[i]),
    ensures
        parse_line(line) is None,
{
    lemma_comment_from_bound(line, 0);
    let code = line.take(comment_from(line, 0));
    assert(forall|i: int| 0 <= i < code.len() ==> is_blank(#[trigger] code[i])) by {
        assert forall|i: int| 0 <= i < code.len() implies is_blank(#[trigger] code[i]) by {
            assert(code[i] == line[i]);
        }
    }
    lemma_blank_prefix_end(code, 0);
    assert(trim(code).len() == 0);
}

proof fn lemma_comment_from_bound(s: Seq<char>, i: int)
    requires
        0 <= i,
    ensures
        0 <= comment_from(s, i) <= s.len(),
    decreases s.len() - i,
{
    if i + 1 < s.len() && !(s[i] == '/' && s[i + 1] == '/') {
        lemma_comment_from_bound(s, i + 1);
    }
}

/// Law: a line of blanks followed by a comment is no command.
pub proof fn lemma_comment_line(line: Seq<char>, k: int)
    requires
        0 <= k,
        k + 1 < line.len(),
        line[k] == '/' && line[k + 1] == '/',
        forall|i: int| 0 <= i < k ==> is_blank(#[trigger] line[i]),
    ensures
        parse_line(line) is None,
{
    lemma_comment_from(line, 0, k);
    let code = line.take(k);
    assert(forall|i: int| 0 <= i < code.len() ==> is_blank(#[trigger] code[i])) by {
        assert forall|i: int| 0 <= i < code.len() implies is_blank(#[trigger] code[i]) by {
            assert(code[i] == line[i]);
        }
    }
    lemma_blank_prefix_end(code, 0);
    assert(trim(code).len() == 0);
}

/// The commands of two sources read one after the other are those of the
/// first, then those of the second.
pub proof fn lemma_parse_lines_append(a: Seq<Seq<char>>, b: Seq<Seq<char>>)
    ensures
        parse_lines(a + b) == parse_lines(a) + parse_lines(b),
    decreases b.len(),
{
    if b.len() == 0 {
        assert(a + b =~= a);
        assert(parse_lines(a) + parse_lines(b) =~= parse_lines(a));
    } else {
        assert((a + b).drop_last() =~= a + b.drop_last());
        assert((a + b).last() == b.last());
        lemma_parse_lines_append(a, b.drop_last());
        match parse_line(b.last()) {
            Some(c) => {
                assert(parse_lines(a) + parse_lines(b.drop_last()).push(c)
                    =~= (parse_lines(a) + parse_lines(b.drop_last())).push(c));
            },
            None => {},
        }
    }
}

/// Law: a line that is no command leaves the commands of a source as they
/// were without it.
pub proof fn lemma_ignored_line(before: Seq<Seq<char>>, line: Seq<char>, after: Seq<Seq<char>>)
    requires
        parse_line(line) is None,
    ensures
        parse_lines(before + seq![line] + after) == parse_lines(before + after),
{
    lemma_parse_lines_append(before + seq![line], after);
    lemma_parse_lines_append(before, seq![line]);
    lemma_parse_lines_append(before, after);
    assert(seq![line].drop_last() =~= Seq::<Seq<char>>::empty());
    assert(seq![line].last() == line);
    assert(parse_lines(Seq::<Seq<char>>::empty()) =~= Seq::<CommandView>::empty());
    assert(parse_lines(seq![line]) == parse_lines(seq![line].drop_last()));
    assert(parse_lines(seq![line]) =~= Seq::<CommandView>::empty());
    assert(parse_lines(before) + Seq::<CommandView>::empty() =~= parse_lines(before));
}

/// The text of each line.
/// The lines of a source that hold a command, in order.
pub open spec fn command_lines(lines: Seq<Seq<char>>) -> Seq<Seq<char>>
    decreases lines.len(),
{
    if lines.len() == 0 {
        Seq::empty()
    } else {
        let rest = command_lines(lines.drop_last());
        if parse_line(lines.last()) is Some {
            rest.push(lines.last())
        } else {
            rest
        }
    }
}

/// Law: the commands of a source are those of its command lines alone.
pub proof fn lemma_parse_command_lines(lines: Seq<Seq<char>>)
    ensures
        parse_lines(command_lines(lines)) == parse_lines(lines),
    decreases lines.len(),
{
    if lines.len() > 0 {
        lemma_parse_command_lines(lines.drop_last());
        if parse_line(lines.last()) is Some {
            let kept = command_lines(lines.drop_last()).push(lines.last());
            assert(kept.drop_last() =~= command_lines(lines.drop_last()));
            assert(kept.last() == lines.last());
        }
    }
}

/// The command lines of two sources read one after the other are those of the
/// first, then those of the second.
pub proof fn lemma_command_lines_append(a: Seq<Seq<char>>, b: Seq<Seq<char>>)
    ensures
        command_lines(a + b) == command_lines(a) + command_lines(b),
    decreases b.len(),
{
    if b.len() == 0 {
        assert(a + b =~= a);
        assert(command_lines(a) + command_lines(b) =~= command_lines(a));
    } else {
        assert((a + b).drop_last() =~= a + b.drop_last());
        assert((a + b).last() == b.last());
        lemma_command_lines_append(a, b.drop_last());
        if parse_line(b.last()) is Some {
            assert(command_lines(a) + command_lines(b.drop_last()).push(b.last())
                =~= (command_lines(a) + command_lines(b.drop_last())).push(b.last()));
        }
    }
}

/// A run of lines none of which holds a command has no command lines.
pub proof fn lemma_no_command_lines(ignored: Seq<Seq<char>>)
    requires
        forall|i: int| 0 <= i < ignored.len() ==> parse_line(#[trigger] ignored[i]) is None,
    ensures
        command_lines(ignored) == Seq::<Seq<char>>::empty(),
    decreases ignored.len(),
{
    if ignored.len() > 0 {
        let rest = ignored.drop_last();
        assert forall|i: int| 0 <= i < rest.len() implies parse_line(#[trigger] rest[i]) is None by {
            assert(rest[i] == ignored[i]);
        }
        lemma_no_command_lines(rest);
        assert(parse_line(ignored[ignored.len() - 1]) is None);
    }
}

/// Law: inserting any number of lines that hold no command (blank or
/// comment-only lines) into a source leaves its command lines as they were.
pub proof fn lemma_ignored_lines(before: Seq<Seq<char>>, ignored: Seq<Seq<char>>, after: Seq<Seq<char>>)
    requires
        forall|i: int| 0 <= i < ignored.len() ==> parse_line(#[trigger] ignored[i]) is None,
    ensures
        command_lines(before + ignored + after) == command_lines(before + after),
{
    lemma_no_command_lines(ignored);
    lemma_command_lines_append(before + ignored, after);
    lemma_command_lines_append(before, ignored);
    lemma_command_lines_append(before, after);
    assert(command_lines(before) + Seq::<Seq<char>>::empty() =~= command_lines(before));
}

pub open spec fn text_views(lines: Seq<String>) -> Seq<Seq<char>> {
    lines.map_values(|l: String| l@)
}

/// An owned copy of `s`.
fn owned(s: &str) -> (r: Option<String>)
    ensures
        r.deep_view() == Some(s@),
{
    Some(s.to_owned())
}

/// A copy of an optional text.
fn clone_text(s: &Option<String>) -> (r: Option<String>)
    ensures
        r.deep_view() == s.deep_view(),
{
    match s {
        Some(t) => Some(t.clone()),
        None => None,
    }
}

impl Command {
    /// Classifies one source line; `None` when nothing but blanks and a
    /// comment stand on it.
    pub fn from_str(cmd: &str) -> (r: Option<Command>)
        ensures
            option_view(r) == parse_line(cmd@),
    {
        let cut = comment_start(cmd);
        let code = cmd.substring_char(0, cut);
        assert(code@ == cmd@.take(comment_from(cmd@, 0)));
        let body = trim_blanks(code);
        let n = body.unicode_len();
        if n == 0 {
            return None;
        }
        let first = body.get_char(0);
        if first == '(' {
            let stop = if n >= 2 && body.get_char(n - 1) == ')' { n - 1 } else { n };
            Some(Command {
                c_type: CommandType::LCommand,
                symbol: owned(body.substring_char(1, stop)),
                dest: None,
                comp: None,
                jump: None,
            })
        } else if first == '@' {
            Some(Command {
                c_type: CommandType::ACommand,
                symbol: owned(body.substring_char(1, n)),
                dest: None,
                comp: None,
                jump: None,
            })
        } else {
            let (symbol, dest, comp, jump) = Command::extractCCommand(body);
            Some(Command { c_type: CommandType::CCommand, symbol, dest, comp, jump })
        }
    }

    /// Splits a compute command into its symbol (always `None`), destination,
    /// computation and jump.
    pub fn extractCCommand(cmd: &str) -> (r: (Option<String>, Option<String>, Option<String>, Option<String>))
        ensures
            r.0 is None,
            r.1.deep_view() == compute_fields(cmd@).dest,
            r.2.deep_view() == compute_fields(cmd@).comp,
            r.3.deep_view() == compute_fields(cmd@).jump,
    {
        let n = cmd.unicode_len();
        let eq = find_char(cmd, '=');
        let sc = find_char(cmd, ';');
        let dest = if eq < n { owned(cmd.substring_char(0, eq)) } else { None };
        let jump = if sc < n { owned(cmd.substring_char(sc + 1, n)) } else { None };
        let start = if eq < n { eq + 1 } else { 0 };
        let end = if sc < n { sc } else { n };
        let comp = if start <= end { owned(cmd.substring_char(start, end)) } else { owned("") };
        proof {
            reveal_strlit("");
        }
        (None, dest, comp, jump)
    }
}

/// The mathematical state of a parser: the commands of the source, and the
/// cursor, which equals the number of commands once it is past the end.
pub struct ParserState {
    pub commands: Seq<CommandView>,
    pub cursor: nat,
}

impl ParserState {
    /// The command under the cursor, if any.
    pub open spec fn current(self) -> Option<CommandView> {
        if self.cursor < self.commands.len() {
            Some(self.commands[self.cursor as int])
        } else {
            None
        }
    }
}

/// A restartable cursor over the commands of a source held in memory.
pub struct Parser {
    commands: Vec<Command>,
    pos: usize,
}

impl Parser {
    /// The commands are held in memory, so a `usize` counts them, and the
    /// cursor never passes the end.
    #[verifier::type_invariant]
    spec fn fits(&self) -> bool {
        self.commands@.len() <= usize::MAX && self.pos <= self.commands@.len()
    }
}

impl View for Parser {
    type V = ParserState;

    closed spec fn view(&self) -> ParserState {
        ParserState {
            commands: self.commands@.map_values(|c: Command| c@),
            cursor: if self.pos <= self.commands@.len() {
                self.pos as nat
            } else {
                self.commands@.len()
            },
        }
    }
}

impl Parser {
    /// Classifies every line of the source, keeping the commands in order;
    /// the cursor stands on the first command.
    pub fn new(lines: &Vec<String>) -> (r: Parser)
        ensures
            r@.commands == parse_lines(text_views(lines@)),
            r@.cursor == 0,
    {
        let mut commands: Vec<Command> = Vec::new();
        let n = lines.len();
        let mut i: usize = 0;
        while i < n
            invariant
                n == lines@.len(),
                i <= n,
                commands@.len() <= i,
                commands@.map_values(|c: Command| c@) == parse_lines(text_views(lines@.take(i as int))),
            decreases lines@.len() - i,
        {
            proof {
                assert(text_views(lines@.take(i + 1)).drop_last() =~= text_views(lines@.take(i as int)));
                assert(text_views(lines@.take(i + 1)).last() == lines@[i as int]@);
            }
            let ghost before = commands@;
            match Command::from_str(lines[i].as_str()) {
                Some(c) => {
                    commands.push(c);
                    assert(commands@.map_values(|c: Command| c@) =~= before.map_values(|c: Command| c@).push(c@));
                },
                None => {},
            }
            i = i + 1;
        }
        assert(lines@.take(lines@.len() as int) =~= lines@);
        Parser { commands, pos: 0 }
    }

    /// The cursor of every parser stands on a command or just past the last.
    pub proof fn lemma_cursor_in_range(&self)
        ensures
            self@.cursor <= self@.commands.len(),
    {
    }

    /// Moves the cursor to the next command; `Some(true)` while one is there,
    /// `None` once the cursor is past the last one.
    pub fn advance(&mut self) -> (r: Option<bool>)
        ensures
            final(self)@.commands == old(self)@.commands,
            final(self)@.cursor == (if old(self)@.cursor < old(self)@.commands.len() {
                (old(self)@.cursor + 1) as nat
            } else {
                old(self)@.cursor
            }),
            r == (if final(self)@.cursor < final(self)@.commands.len() { Some(true) } else { None }),
    {
        proof {
            use_type_invariant(&*self);
        }
        if self.pos < self.commands.len() {
            self.pos = self.pos + 1;
        }
        if self.pos < self.commands.len() {
            Some(true)
        } else {
            None
        }
    }

    /// The type of the current command.
    pub fn command_type(&self) -> (r: Option<CommandType>)
        ensures
            self@.commands.len() <= usize::MAX,
            r == (match self@.current() {
                Some(c) => Some(c.c_type),
                None => None,
            }),
    {
        proof {
            use_type_invariant(self);
        }
        if self.pos < self.commands.len() {
            Some(self.commands[self.pos].c_type)
        } else {
            None
        }
    }

    /// The symbol of the current command.
    pub fn symbol(&self) -> (r: Option<String>)
        ensures
            r.deep_view() == (match self@.current() {
                Some(c) => c.symbol,
                None => None,
            }),
    {
        if self.pos < self.commands.len() {
            clone_text(&self.commands[self.pos].symbol)
        } else {
            None
        }
    }

    /// The destination of the current command.
    pub fn dest(&self) -> (r: Option<String>)
        ensures
            r.deep_view() == (match self@.current() {
                Some(c) => c.dest,
                None => None,
            }),
    {
        if self.pos < self.commands.len() {
            clone_text(&self.commands[self.pos].dest)
        } else {
            None
        }
    }

    /// The computation of the current command.
    pub fn comp(&self) -> (r: Option<String>)
        ensures
            r.deep_view() == (match self@.current() {
                Some(c) => c.comp,
                None => None,
            }),
    {
        if self.pos < self.commands.len() {
            clone_text(&self.commands[self.pos].comp)
        } else {
            None
        }
    }

    /// The jump of the current command.
    pub fn jump(&self) -> (r: Option<String>)
        ensures
            r.deep_view() == (match self@.current() {
                Some(c) => c.jump,
                None => None,
            }),
    {
        if self.pos < self.commands.len() {
            clone_text(&self.commands[self.pos].jump)
        } else {
            None
        }
    }

    /// Puts the cursor back on the first command.
    pub fn rewind(&mut self)
        ensures
            final(self)@.commands == old(self)@.commands,
            final(self)@.cursor == 0,
    {
        proof {
            use_type_invariant(&*self);
        }
        self.pos = 0;
    }
}

} // verus!
