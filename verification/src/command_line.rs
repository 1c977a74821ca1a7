//! Command lines of the desktop agent, in UTF-16 code units.
use vstd::prelude::*;

verus! {

/// A tab.
pub const TAB: u16 = 0x09;

/// A space.
pub const SPACE: u16 = 0x20;

/// A quotation mark.
pub const QUOTE: u16 = 0x22;

/// A backslash.
pub const BACKSLASH: u16 = 0x5c;

/// A number of backslashes.
pub open spec fn backslashes(count: nat) -> Seq<u16> {
    Seq::new(count, |i: int| BACKSLASH)
}

/// How many backslashes a text begins with.
pub open spec fn leading_backslashes(text: Seq<u16>) -> nat
    decreases text.len(),
{
    if text.len() > 0 && text[0] == BACKSLASH {
        1 + leading_backslashes(text.skip(1))
    } else {
        0
    }
}

/// Whether an argument has to be quoted.
pub open spec fn needs_quotes(argument: Seq<u16>) -> bool {
    argument.len() == 0 || argument.contains(TAB) || argument.contains(SPACE)
        || argument.contains(QUOTE)
}

/// An argument as it stands between quotation marks: backslashes are doubled
/// before a quotation mark, the last one too, and a quotation mark of the
/// argument gets one more.
pub open spec fn escaped(argument: Seq<u16>) -> Seq<u16>
    decreases argument.len(),
{
    let count = leading_backslashes(argument);
    if count >= argument.len() {
        backslashes(2 * count)
    } else {
        let value = argument[count as int];
        let before = if value == QUOTE {
            backslashes(2 * count + 1)
        } else {
            backslashes(count)
        };
        before.push(value) + escaped(argument.skip(count as int + 1))
    }
}

/// An argument as it stands on a command line.
pub open spec fn argument_text(argument: Seq<u16>) -> Seq<u16> {
    if needs_quotes(argument) {
        (seq![QUOTE] + escaped(argument)).push(QUOTE)
    } else {
        argument
    }
}

/// Arguments with a space between them.
pub open spec fn joined(arguments: Seq<Seq<u16>>) -> Seq<u16>
    decreases arguments.len(),
{
    if arguments.len() == 0 {
        Seq::empty()
    } else if arguments.len() == 1 {
        argument_text(arguments[0])
    } else {
        joined(arguments.drop_last()).push(SPACE) + argument_text(arguments.last())
    }
}

/// The contents of a list of texts.
pub open spec fn texts(list: Seq<Vec<u16>>) -> Seq<Seq<u16>> {
    list.map_values(|text: Vec<u16>| text@)
}

proof fn lemma_leading(count: nat, rest: Seq<u16>)
    requires
        rest.len() > 0 ==> rest[0] != BACKSLASH,
    ensures
        leading_backslashes(backslashes(count) + rest) == count,
    decreases count,
{
    let text = backslashes(count) + rest;
    if count > 0 {
        assert(text.skip(1) =~= backslashes((count - 1) as nat) + rest);
        lemma_leading((count - 1) as nat, rest);
    } else {
        assert(text =~= rest);
    }
}

proof fn lemma_escaped_step(count: nat, value: u16, rest: Seq<u16>)
    requires
        value != BACKSLASH,
    ensures
        escaped(backslashes(count) + (seq![value] + rest)) == (if value == QUOTE {
            backslashes(2 * count + 1)
        } else {
            backslashes(count)
        }).push(value) + escaped(rest),
{
    let text = backslashes(count) + (seq![value] + rest);
    lemma_leading(count, seq![value] + rest);
    assert(text.len() == count + 1 + rest.len());
    assert(text[count as int] == value);
    assert(text.skip(count as int + 1) =~= rest);
}

proof fn lemma_escaped_end(count: nat)
    ensures
        escaped(backslashes(count)) == backslashes(2 * count),
{
    lemma_leading(count, Seq::empty());
    assert(backslashes(count) + Seq::<u16>::empty() =~= backslashes(count));
}

/// Append a number of backslashes.
fn push_backslashes(command_line: &mut Vec<u16>, count: usize)
    ensures
        final(command_line)@ == old(command_line)@ + backslashes(count as nat),
{
    let ghost before = command_line@;
    let mut i: usize = 0;
    assert(before =~= before + backslashes(0));
    while i < count
        invariant
            i <= count,
            command_line@ == before + backslashes(i as nat),
        decreases count - i,
    {
        command_line.push(BACKSLASH);
        i += 1;
        assert(command_line@ =~= before + backslashes(i as nat));
    }
}

/// Append some units.
fn push_all(command_line: &mut Vec<u16>, units: &[u16])
    ensures
        final(command_line)@ == old(command_line)@ + units@,
{
    let ghost before = command_line@;
    let mut i: usize = 0;
    assert(before =~= before + units@.take(0));
    while i < units.len()
        invariant
            i <= units@.len(),
            command_line@ == before + units@.take(i as int),
        decreases units@.len() - i,
    {
        command_line.push(units[i]);
        i += 1;
        assert(command_line@ =~= before + units@.take(i as int));
    }
    assert(units@.take(i as int) =~= units@);
}

/// Append an argument to a command line, quoted where it has to be.
pub fn push_quoted_argument(command_line: &mut Vec<u16>, argument: &[u16])
    ensures
        final(command_line)@ == old(command_line)@ + argument_text(argument@),
{
    let ghost start = command_line@;
    let mut quotes: bool = argument.len() == 0;
    let mut i: usize = 0;
    while i < argument.len()
        invariant
            i <= argument@.len(),
            quotes == (argument@.len() == 0 || exists|j: int|
                0 <= j < i && (#[trigger] argument@[j] == TAB || argument@[j] == SPACE
                    || argument@[j] == QUOTE)),
        decreases argument@.len() - i,
    {
        let value: u16 = argument[i];
        if value == TAB || value == SPACE || value == QUOTE {
            quotes = true;
        }
        i += 1;
    }
    assert(quotes == needs_quotes(argument@));
    if !quotes {
        push_all(command_line, argument);
        return;
    }
    command_line.push(QUOTE);
    let mut count: usize = 0;
    let mut i: usize = 0;
    let ghost mut done: Seq<u16> = Seq::empty();
    proof {
        assert(backslashes(0) + argument@.skip(0) =~= argument@);
        assert(done + escaped(argument@) =~= escaped(argument@));
        assert(command_line@ =~= start.push(QUOTE) + done);
    }
    while i < argument.len()
        invariant
            i <= argument@.len(),
            count <= i,
            command_line@ == start.push(QUOTE) + done,
            done + escaped(backslashes(count as nat) + argument@.skip(i as int)) == escaped(
                argument@,
            ),
        decreases argument@.len() - i,
    {
        let value: u16 = argument[i];
        let ghost rest = argument@.skip(i + 1);
        assert(argument@.skip(i as int) =~= seq![value] + rest);
        if value == BACKSLASH {
            assert(backslashes(count as nat) + (seq![value] + rest) =~= backslashes(
                (count + 1) as nat,
            ) + rest);
            count += 1;
        } else {
            proof {
                lemma_escaped_step(count as nat, value, rest);
            }
            let ghost before = command_line@;
            if value == QUOTE {
                push_backslashes(command_line, count);
                push_backslashes(command_line, count);
                command_line.push(BACKSLASH);
                assert(command_line@ =~= before + backslashes((2 * count + 1) as nat));
            } else {
                push_backslashes(command_line, count);
            }
            command_line.push(value);
            proof {
                let piece = (if value == QUOTE {
                    backslashes((2 * count + 1) as nat)
                } else {
                    backslashes(count as nat)
                }).push(value);
                assert(command_line@ =~= before + piece);
                assert(before + piece =~= start.push(QUOTE) + (done + piece));
                assert(done + (piece + escaped(rest)) =~= (done + piece) + escaped(rest));
                done = done + piece;
                assert(backslashes(0) + rest =~= rest);
            }
            count = 0;
        }
        i += 1;
    }
    proof {
        assert(backslashes(count as nat) + argument@.skip(i as int) =~= backslashes(count as nat));
        lemma_escaped_end(count as nat);
    }
    push_backslashes(command_line, count);
    push_backslashes(command_line, count);
    command_line.push(QUOTE);
    assert(backslashes(count as nat) + backslashes(count as nat) =~= backslashes(
        2 * (count as nat),
    ));
    assert(command_line@ =~= start + argument_text(argument@));
}

/// The command line that starts a program with some arguments, ended by a zero.
pub fn build_command_line(arguments: &[Vec<u16>]) -> (command_line: Vec<u16>)
    ensures
        command_line@ == joined(texts(arguments@)).push(0),
{
    let mut command_line: Vec<u16> = Vec::new();
    let mut i: usize = 0;
    let ghost all = texts(arguments@);
    assert(all.take(0) =~= Seq::<Seq<u16>>::empty());
    assert(joined(all.take(0)) =~= command_line@);
    while i < arguments.len()
        invariant
            i <= arguments@.len(),
            all == texts(arguments@),
            command_line@ == joined(all.take(i as int)),
            command_line@.len() == 0 <==> i == 0,
        decreases arguments@.len() - i,
    {
        let ghost next = all.take(i + 1);
        assert(next.drop_last() =~= all.take(i as int));
        assert(next.last() == arguments@[i as int]@);
        proof {
            lemma_first_unit(arguments@[i as int]@);
        }
        if command_line.len() > 0 {
            command_line.push(SPACE);
        }
        push_quoted_argument(&mut command_line, arguments[i].as_slice());
        assert(command_line@ =~= joined(next));
        i += 1;
    }
    assert(all.take(i as int) =~= all);
    command_line.push(0);
    command_line
}

/// A text with a zero behind it.
pub fn wide_null(value: &[u16]) -> (text: Vec<u16>)
    ensures
        text@ == value@.push(0),
{
    let mut text: Vec<u16> = Vec::new();
    push_all(&mut text, value);
    text.push(0);
    assert(text@ =~= value@.push(0));
    text
}

/// ASCII characters as UTF-16 code units.
pub open spec fn wide(text: Seq<char>) -> Seq<u16> {
    text.map_values(|c: char| c as u16)
}

/// An ASCII text as UTF-16 code units.
fn wide_ascii(text: &str) -> (units: Vec<u16>)
    requires
        text.is_ascii(),
    ensures
        units@ == wide(text@),
{
    let mut units: Vec<u16> = Vec::new();
    let count: usize = text.unicode_len();
    let mut i: usize = 0;
    while i < count
        invariant
            i <= count,
            count == text@.len(),
            text.is_ascii(),
            units@ == wide(text@).take(i as int),
        decreases count - i,
    {
        let unit: u8 = text.get_ascii(i);
        units.push(unit as u16);
        i += 1;
        assert(units@ =~= wide(text@).take(i as int));
    }
    assert(wide(text@).take(i as int) =~= wide(text@));
    units
}

/// A number in decimal digits.
pub open spec fn decimal(value: nat) -> Seq<u16>
    decreases value,
{
    let digit = (0x30 + value % 10) as u16;
    if value < 10 {
        seq![digit]
    } else {
        decimal(value / 10).push(digit)
    }
}

/// Append a number in decimal digits.
fn push_decimal(text: &mut Vec<u16>, value: u64)
    ensures
        final(text)@ == old(text)@ + decimal(value as nat),
    decreases value,
{
    let ghost before = text@;
    if value >= 10 {
        push_decimal(text, value / 10);
    }
    let digit: u16 = 0x30 + (value % 10) as u16;
    text.push(digit);
    assert(text@ =~= before + decimal(value as nat));
}

/// The name of the event by which an agent is told to stop: one for each agent
/// that a service process starts.
pub open spec fn stop_event_name(process: u32, generation: u64) -> Seq<u16> {
    (wide("Global\\rkvm-client-stop-"@) + decimal(process as nat)).push(0x2d) + decimal(
        generation as nat,
    )
}

/// The name of the event by which an agent is told to stop.
pub fn event_name(process: u32, generation: u64) -> (name: Vec<u16>)
    ensures
        name@ == stop_event_name(process, generation),
{
    proof {
        reveal_strlit("Global\\rkvm-client-stop-");
    }
    let mut name = wide_ascii("Global\\rkvm-client-stop-");
    push_decimal(&mut name, process as u64);
    name.push(0x2d);
    push_decimal(&mut name, generation);
    name
}

/// The arguments of a desktop agent: what it is, the event by which it is told
/// to stop, its log and its configuration.
pub open spec fn agent_argument_list(
    executable: Seq<u16>,
    event: Seq<u16>,
    log: Seq<u16>,
    config: Seq<u16>,
) -> Seq<Seq<u16>> {
    seq![
        executable,
        wide("--desktop-agent"@),
        wide("--stop-event"@),
        event,
        wide("--log-file"@),
        log,
        config,
    ]
}

/// The command line of a desktop agent, ended by a zero.
pub fn agent_command_line(
    executable: Vec<u16>,
    event: Vec<u16>,
    log: Vec<u16>,
    config: Vec<u16>,
) -> (command_line: Vec<u16>)
    ensures
        command_line@ == joined(
            agent_argument_list(executable@, event@, log@, config@),
        ).push(0),
{
    proof {
        reveal_strlit("--desktop-agent");
        reveal_strlit("--stop-event");
        reveal_strlit("--log-file");
    }
    let arguments = vec![
        executable,
        wide_ascii("--desktop-agent"),
        wide_ascii("--stop-event"),
        event,
        wide_ascii("--log-file"),
        log,
        config,
    ];
    assert(texts(arguments@) =~= agent_argument_list(
        arguments@[0]@,
        arguments@[3]@,
        arguments@[5]@,
        arguments@[6]@,
    ));
    build_command_line(arguments.as_slice())
}

/// A text is its leading backslashes and a rest that begins with none.
pub proof fn backslashes_come_first(text: Seq<u16>)
    ensures
        leading_backslashes(text) <= text.len(),
        ({
            let rest = text.skip(leading_backslashes(text) as int);
            &&& text == backslashes(leading_backslashes(text)) + rest
            &&& rest.len() > 0 ==> rest[0] != BACKSLASH
        }),
    decreases text.len(),
{
    let count = leading_backslashes(text);
    if text.len() > 0 && text[0] == BACKSLASH {
        backslashes_come_first(text.skip(1));
        assert(text.skip(1).skip(count - 1) =~= text.skip(count as int));
        assert(text =~= seq![BACKSLASH] + text.skip(1));
        assert(seq![BACKSLASH] + backslashes((count - 1) as nat) =~= backslashes(count));
        assert(text =~= backslashes(count) + text.skip(count as int));
    } else {
        assert(text =~= backslashes(0) + text.skip(0));
    }
}

/// How a program reads one argument off a command line: what it reads, and what
/// is left. A quotation mark begins or ends quoted text, in which two of them
/// stand for one. Backslashes stand for themselves, but for those right before a
/// quotation mark: there two stand for one, and one that is left over makes the
/// quotation mark part of the argument.
pub open spec fn read_argument(text: Seq<u16>, quoted: bool, so_far: Seq<u16>) -> (
    Seq<u16>,
    Seq<u16>,
)
    decreases text.len(),
{
    proof {
        backslashes_come_first(text);
    }
    let count = leading_backslashes(text);
    let rest = text.skip(count as int);
    if text.len() == 0 {
        (so_far, text)
    } else if count > 0 {
        if rest.len() > 0 && rest[0] == QUOTE {
            let half = so_far + backslashes(count / 2);
            if count % 2 == 1 {
                read_argument(rest.skip(1), quoted, half.push(QUOTE))
            } else {
                read_argument(rest, quoted, half)
            }
        } else {
            read_argument(rest, quoted, so_far + backslashes(count))
        }
    } else if text[0] == QUOTE {
        if quoted && text.len() > 1 && text[1] == QUOTE {
            read_argument(text.skip(2), quoted, so_far.push(QUOTE))
        } else {
            read_argument(text.skip(1), !quoted, so_far)
        }
    } else if !quoted && (text[0] == SPACE || text[0] == TAB) {
        (so_far, text)
    } else {
        read_argument(text.skip(1), quoted, so_far.push(text[0]))
    }
}

/// Reading an argument never goes back, and takes at least one unit unless a
/// space or a tab stands first.
pub proof fn reading_proceeds(text: Seq<u16>, quoted: bool, so_far: Seq<u16>)
    ensures
        read_argument(text, quoted, so_far).1.len() <= text.len(),
        text.len() > 0 && text[0] != SPACE && text[0] != TAB ==> read_argument(
            text,
            quoted,
            so_far,
        ).1.len() < text.len(),
    decreases text.len(),
{
    backslashes_come_first(text);
    let count = leading_backslashes(text);
    let rest = text.skip(count as int);
    if text.len() == 0 {
    } else if count > 0 {
        if rest.len() > 0 && rest[0] == QUOTE {
            let half = so_far + backslashes(count / 2);
            if count % 2 == 1 {
                reading_proceeds(rest.skip(1), quoted, half.push(QUOTE));
            } else {
                reading_proceeds(rest, quoted, half);
            }
        } else {
            reading_proceeds(rest, quoted, so_far + backslashes(count));
        }
    } else if text[0] == QUOTE {
        if quoted && text.len() > 1 && text[1] == QUOTE {
            reading_proceeds(text.skip(2), quoted, so_far.push(QUOTE));
        } else {
            reading_proceeds(text.skip(1), !quoted, so_far);
        }
    } else if !quoted && (text[0] == SPACE || text[0] == TAB) {
    } else {
        reading_proceeds(text.skip(1), quoted, so_far.push(text[0]));
    }
}

/// How a program reads the arguments off a command line.
pub open spec fn read_arguments(text: Seq<u16>) -> Seq<Seq<u16>>
    decreases text.len(),
{
    if text.len() == 0 {
        Seq::empty()
    } else if text[0] == SPACE || text[0] == TAB {
        read_arguments(text.skip(1))
    } else {
        proof {
            reading_proceeds(text, false, Seq::empty());
        }
        let (argument, rest) = read_argument(text, false, Seq::empty());
        seq![argument] + read_arguments(rest)
    }
}

/// What may stand behind an argument: nothing, or a space.
spec fn ends_argument(rest: Seq<u16>) -> bool {
    rest.len() > 0 ==> rest[0] == SPACE
}

proof fn lemma_reading_ends(rest: Seq<u16>, argument: Seq<u16>)
    requires
        ends_argument(rest),
    ensures
        read_argument(rest, false, argument) == (argument, rest),
{
}

proof fn lemma_closing_quote(rest: Seq<u16>, argument: Seq<u16>)
    requires
        ends_argument(rest),
    ensures
        read_argument(seq![QUOTE] + rest, true, argument) == (argument, rest),
{
    let text = seq![QUOTE] + rest;
    assert(text.skip(1) =~= rest);
    lemma_reading_ends(rest, argument);
}

proof fn lemma_plain_unit(value: u16, rest: Seq<u16>, quoted: bool, so_far: Seq<u16>)
    requires
        value != BACKSLASH,
        value != QUOTE,
        quoted || value != SPACE && value != TAB,
    ensures
        read_argument(seq![value] + rest, quoted, so_far) == read_argument(
            rest,
            quoted,
            so_far.push(value),
        ),
{
    let text = seq![value] + rest;
    assert(text.skip(1) =~= rest);
}

proof fn lemma_backslash_run(count: nat, rest: Seq<u16>, quoted: bool, so_far: Seq<u16>)
    requires
        rest.len() > 0 ==> rest[0] != BACKSLASH && rest[0] != QUOTE,
    ensures
        read_argument(backslashes(count) + rest, quoted, so_far) == read_argument(
            rest,
            quoted,
            so_far + backslashes(count),
        ),
{
    let text = backslashes(count) + rest;
    if count == 0 {
        assert(text =~= rest);
        assert(so_far + backslashes(0) =~= so_far);
    } else {
        lemma_leading(count, rest);
        assert(text.skip(count as int) =~= rest);
    }
}

proof fn lemma_reads_escaped(argument: Seq<u16>, rest: Seq<u16>, so_far: Seq<u16>)
    requires
        ends_argument(rest),
    ensures
        read_argument(escaped(argument) + (seq![QUOTE] + rest), true, so_far) == (
            so_far + argument,
            rest,
        ),
    decreases argument.len(),
{
    backslashes_come_first(argument);
    let count = leading_backslashes(argument);
    let closing = seq![QUOTE] + rest;
    let text = escaped(argument) + closing;
    if count >= argument.len() {
        assert(argument =~= backslashes(count));
        assert(text == backslashes(2 * count) + closing);
        if count == 0 {
            assert(text =~= closing);
        } else {
            lemma_leading(2 * count, closing);
            assert(text.skip(2 * count as int) =~= closing);
            assert((2 * count) / 2 == count);
        }
        assert(count == 0 ==> so_far + argument =~= so_far);
        lemma_closing_quote(rest, so_far + argument);
    } else {
        let value = argument[count as int];
        let later = argument.skip(count as int + 1);
        let tail = escaped(later) + closing;
        assert(argument =~= (backslashes(count).push(value)) + later);
        if value == QUOTE {
            let after = so_far + backslashes(count).push(QUOTE);
            lemma_reads_escaped(later, rest, after);
            assert(text =~= backslashes(2 * count + 1) + (seq![QUOTE] + tail));
            lemma_leading(2 * count + 1, seq![QUOTE] + tail);
            assert(text.skip((2 * count + 1) as int) =~= seq![QUOTE] + tail);
            assert((seq![QUOTE] + tail).skip(1) =~= tail);
            assert((2 * count + 1) / 2 == count);
            assert((so_far + backslashes(count)).push(QUOTE) =~= after);
            assert(after + later =~= so_far + argument);
        } else {
            let after = so_far + backslashes(count).push(value);
            lemma_reads_escaped(later, rest, after);
            assert(text =~= backslashes(count) + (seq![value] + tail));
            lemma_backslash_run(count, seq![value] + tail, true, so_far);
            lemma_plain_unit(value, tail, true, so_far + backslashes(count));
            assert((so_far + backslashes(count)).push(value) =~= after);
            assert(after + later =~= so_far + argument);
        }
    }
}

proof fn lemma_reads_plain(argument: Seq<u16>, rest: Seq<u16>, so_far: Seq<u16>)
    requires
        ends_argument(rest),
        !argument.contains(TAB),
        !argument.contains(SPACE),
        !argument.contains(QUOTE),
    ensures
        read_argument(argument + rest, false, so_far) == (so_far + argument, rest),
    decreases argument.len(),
{
    backslashes_come_first(argument);
    let count = leading_backslashes(argument);
    let later = argument.skip(count as int);
    if argument.len() == 0 {
        assert(argument + rest =~= rest);
        assert(so_far + argument =~= so_far);
        lemma_reading_ends(rest, so_far);
    } else if count > 0 {
        assert forall|i: int| 0 <= i < later.len() implies argument.contains(
            #[trigger] later[i],
        ) by {
            assert(later[i] == argument[count + i]);
        }
        assert(argument + rest =~= backslashes(count) + (later + rest));
        assert((later + rest).len() > 0 ==> (later + rest)[0] != BACKSLASH && (later + rest)[0]
            != QUOTE);
        lemma_backslash_run(count, later + rest, false, so_far);
        lemma_reads_plain(later, rest, so_far + backslashes(count));
        assert(so_far + backslashes(count) + later =~= so_far + argument);
    } else {
        let value = argument[0];
        let after = argument.skip(1);
        assert(argument.contains(value));
        assert forall|i: int| 0 <= i < after.len() implies argument.contains(
            #[trigger] after[i],
        ) by {
            assert(after[i] == argument[1 + i]);
        }
        assert(argument + rest =~= seq![value] + (after + rest));
        lemma_plain_unit(value, after + rest, false, so_far);
        lemma_reads_plain(after, rest, so_far.push(value));
        assert(so_far.push(value) + after =~= so_far + argument);
    }
}

/// A program reads back the argument that was quoted for it, whatever it holds.
pub proof fn arguments_are_read_back(argument: Seq<u16>, rest: Seq<u16>)
    requires
        rest.len() > 0 ==> rest[0] == SPACE,
    ensures
        read_argument(argument_text(argument) + rest, false, Seq::empty()) == (argument, rest),
{
    let none = Seq::<u16>::empty();
    if needs_quotes(argument) {
        let inner = escaped(argument) + (seq![QUOTE] + rest);
        let text = argument_text(argument) + rest;
        assert(text =~= seq![QUOTE] + inner);
        assert(text.skip(1) =~= inner);
        lemma_reads_escaped(argument, rest, none);
    } else {
        lemma_reads_plain(argument, rest, none);
    }
    assert(none + argument =~= argument);
}

proof fn lemma_joined_front(arguments: Seq<Seq<u16>>)
    requires
        arguments.len() > 1,
    ensures
        joined(arguments) == argument_text(arguments[0]) + (seq![SPACE] + joined(
            arguments.skip(1),
        )),
    decreases arguments.len(),
{
    let front = arguments.drop_last();
    let later = arguments.skip(1);
    let last = argument_text(arguments.last());
    if arguments.len() == 2 {
        assert(joined(front) == argument_text(arguments[0]));
        assert(joined(later) == last);
        assert(joined(arguments) =~= argument_text(arguments[0]) + (seq![SPACE] + last));
    } else {
        lemma_joined_front(front);
        assert(later.drop_last() =~= front.skip(1));
        assert(joined(later) == joined(front.skip(1)).push(SPACE) + last);
        assert(joined(arguments) =~= argument_text(arguments[0]) + (seq![SPACE] + joined(later)));
    }
}

/// A program reads back the arguments for which its command line was built.
pub proof fn command_lines_are_read_back(arguments: Seq<Seq<u16>>)
    ensures
        read_arguments(joined(arguments)) == arguments,
    decreases arguments.len(),
{
    let line = joined(arguments);
    if arguments.len() == 0 {
        assert(read_arguments(line) =~= arguments);
    } else {
        let first = arguments[0];
        let later = arguments.skip(1);
        let rest = if arguments.len() == 1 {
            Seq::empty()
        } else {
            seq![SPACE] + joined(later)
        };
        if arguments.len() == 1 {
            assert(line =~= argument_text(first) + rest);
        } else {
            lemma_joined_front(arguments);
        }
        arguments_are_read_back(first, rest);
        lemma_first_unit(first);
        assert(line[0] == argument_text(first)[0]);
        if arguments.len() == 1 {
            assert(read_arguments(rest) =~= Seq::<Seq<u16>>::empty());
        } else {
            assert(rest.skip(1) =~= joined(later));
            command_lines_are_read_back(later);
        }
        assert(seq![first] + later =~= arguments);
        assert(seq![first] + read_arguments(rest) =~= arguments);
    }
}

proof fn lemma_first_unit(argument: Seq<u16>)
    ensures
        argument_text(argument).len() > 0,
        argument_text(argument)[0] != SPACE,
        argument_text(argument)[0] != TAB,
{
    if !needs_quotes(argument) {
        assert(argument.contains(argument[0]));
    }
}

proof fn lemma_escaped_units(argument: Seq<u16>)
    requires
        !argument.contains(0),
    ensures
        !escaped(argument).contains(0),
    decreases argument.len(),
{
    backslashes_come_first(argument);
    let count = leading_backslashes(argument);
    if count < argument.len() {
        let later = argument.skip(count as int + 1);
        assert(argument.contains(argument[count as int]));
        assert forall|i: int| 0 <= i < later.len() implies argument.contains(
            #[trigger] later[i],
        ) by {
            assert(later[i] == argument[count + 1 + i]);
        }
        lemma_escaped_units(later);
        let tail = escaped(later);
        assert forall|i: int| 0 <= i < escaped(argument).len() implies #[trigger] escaped(
            argument,
        )[i] != 0 by {
            let head = escaped(argument).len() - tail.len();
            if i >= head {
                assert(escaped(argument)[i] == tail[i - head]);
                assert(tail.contains(tail[i - head]));
            }
        }
    }
}

/// No zero ends a command line early, unless an argument holds one.
pub proof fn command_lines_end_once(arguments: Seq<Seq<u16>>)
    requires
        forall|i: int| 0 <= i < arguments.len() ==> !(#[trigger] arguments[i]).contains(0),
    ensures
        !joined(arguments).contains(0),
    decreases arguments.len(),
{
    if arguments.len() > 0 {
        let last = arguments.last();
        assert(!arguments[arguments.len() - 1].contains(0));
        lemma_escaped_units(last);
        let text = argument_text(last);
        assert forall|i: int| 0 <= i < text.len() implies #[trigger] text[i] != 0 by {
            if needs_quotes(last) {
                if 0 < i < text.len() - 1 {
                    assert(text[i] == escaped(last)[i - 1]);
                    assert(escaped(last).contains(escaped(last)[i - 1]));
                }
            } else {
                assert(last.contains(last[i]));
            }
        }
        if arguments.len() > 1 {
            let front = arguments.drop_last();
            assert forall|i: int| 0 <= i < front.len() implies !(#[trigger] front[i]).contains(
                0,
            ) by {
                assert(front[i] == arguments[i]);
            }
            command_lines_end_once(front);
            let line = joined(arguments);
            assert forall|i: int| 0 <= i < line.len() implies #[trigger] line[i] != 0 by {
                let head = joined(front);
                if i < head.len() {
                    assert(line[i] == head[i]);
                    assert(head.contains(head[i]));
                } else if i > head.len() {
                    assert(line[i] == text[i - head.len() - 1]);
                }
            }
        }
    }
}

proof fn lemma_decimals_differ(a: nat, b: nat)
    requires
        decimal(a) == decimal(b),
    ensures
        a == b,
    decreases a,
{
    assert(decimal(a).last() == (0x30 + a % 10) as u16);
    assert(decimal(b).last() == (0x30 + b % 10) as u16);
    assert(a % 10 == b % 10);
    lemma_decimal_length(a);
    lemma_decimal_length(b);
    if a >= 10 && b >= 10 {
        assert(decimal(a).drop_last() =~= decimal(a / 10));
        assert(decimal(b).drop_last() =~= decimal(b / 10));
        lemma_decimals_differ(a / 10, b / 10);
    }
}

proof fn lemma_decimal_length(value: nat)
    ensures
        decimal(value).len() >= 1,
        value >= 10 ==> decimal(value).len() >= 2,
    decreases value,
{
    if value >= 10 {
        lemma_decimal_length(value / 10);
    }
}

/// No two agents of a service process are told to stop by the same event.
pub proof fn event_names_are_distinct(process: u32, a: u64, b: u64)
    requires
        stop_event_name(process, a) == stop_event_name(process, b),
    ensures
        a == b,
{
    let head = (wide("Global\\rkvm-client-stop-"@) + decimal(process as nat)).push(0x2d);
    assert(stop_event_name(process, a).skip(head.len() as int) =~= decimal(a as nat));
    assert(stop_event_name(process, b).skip(head.len() as int) =~= decimal(b as nat));
    lemma_decimals_differ(a as nat, b as nat);
}

/// The number that decimal digits stand for.
pub open spec fn number_of(digits: Seq<u16>) -> int
    decreases digits.len(),
{
    if digits.len() == 0 {
        0
    } else {
        10 * number_of(digits.drop_last()) + (digits.last() - 0x30)
    }
}

/// A number is written in digits from 0 to 9 that stand for it, without a zero in
/// front.
pub proof fn numbers_are_read_back(value: nat)
    ensures
        number_of(decimal(value)) == value,
        decimal(value).len() > 0,
        forall|i: int|
            0 <= i < decimal(value).len() ==> 0x30 <= #[trigger] decimal(value)[i] <= 0x39,
        decimal(value).len() > 1 ==> decimal(value)[0] != 0x30,
    decreases value,
{
    reveal_with_fuel(number_of, 2);
    let text = decimal(value);
    if value < 10 {
        assert(text.drop_last() =~= Seq::<u16>::empty());
    } else {
        numbers_are_read_back(value / 10);
        let front = decimal(value / 10);
        assert(text.drop_last() =~= front);
        assert forall|i: int| 0 <= i < text.len() implies 0x30 <= #[trigger] text[i] <= 0x39 by {
            if i < front.len() {
                assert(text[i] == front[i]);
            }
        }
        assert(text[0] == front[0]);
        if front.len() == 1 && front[0] == 0x30 {
            assert(front.drop_last() =~= Seq::<u16>::empty());
            assert(number_of(front) == 0);
        }
    }
}

/// The event by which an agent is told to stop is a global one and names the service
/// process and the number of the agent, so that no two agents of any two processes
/// share one.
pub proof fn events_name_their_agent(
    process: u32,
    generation: u64,
    other_process: u32,
    other_generation: u64,
)
    ensures
        stop_event_name(process, generation) == (wide("Global\\rkvm-client-stop-"@) + decimal(
            process as nat,
        )).push(0x2d) + decimal(generation as nat),
        stop_event_name(process, generation) == stop_event_name(other_process, other_generation)
            ==> process == other_process && generation == other_generation,
{
    if stop_event_name(process, generation) == stop_event_name(other_process, other_generation) {
        let prefix = wide("Global\\rkvm-client-stop-"@);
        let name = stop_event_name(process, generation);
        let rest = name.skip(prefix.len() as int);
        let a = decimal(process as nat);
        let b = decimal(other_process as nat);
        let x = decimal(generation as nat);
        let y = decimal(other_generation as nat);
        assert(rest =~= a.push(0x2d) + x);
        assert(rest =~= b.push(0x2d) + y);
        numbers_are_read_back(process as nat);
        numbers_are_read_back(other_process as nat);
        if a.len() < b.len() {
            assert(rest[a.len() as int] == 0x2d);
            assert(rest[a.len() as int] == b[a.len() as int]);
        }
        if b.len() < a.len() {
            assert(rest[b.len() as int] == 0x2d);
            assert(rest[b.len() as int] == a[b.len() as int]);
        }
        assert(a =~= rest.take(a.len() as int));
        assert(b =~= rest.take(b.len() as int));
        assert(x =~= rest.skip(a.len() as int + 1));
        assert(y =~= rest.skip(b.len() as int + 1));
        lemma_decimals_differ(process as nat, other_process as nat);
        lemma_decimals_differ(generation as nat, other_generation as nat);
    }
}

/// An agent reads back what it was started with: its program, that it is a desktop
/// agent, the event by which it is told to stop, its log and its configuration, each
/// behind the option that names it.
pub proof fn agents_read_back_their_arguments(
    executable: Seq<u16>,
    event: Seq<u16>,
    log: Seq<u16>,
    config: Seq<u16>,
)
    ensures
        ({
            let read = read_arguments(
                joined(agent_argument_list(executable, event, log, config)),
            );
            &&& read.len() == 7
            &&& read[0] == executable
            &&& read[1] == wide("--desktop-agent"@)
            &&& read[2] == wide("--stop-event"@)
            &&& read[3] == event
            &&& read[4] == wide("--log-file"@)
            &&& read[5] == log
            &&& read[6] == config
        }),
{
    command_lines_are_read_back(agent_argument_list(executable, event, log, config));
}

/// Texts are written unit by unit, and the marks that matter on a command line are
/// those of ASCII.
pub proof fn texts_are_written_unit_by_unit(text: Seq<char>, i: int)
    requires
        0 <= i < text.len(),
        0 <= (text[i] as int) < 0x80,
    ensures
        wide(text).len() == text.len(),
        wide(text)[i] == text[i] as int,
        TAB == '\t' as int,
        SPACE == ' ' as int,
        QUOTE == '"' as int,
        BACKSLASH == '\\' as int,
{
}

/// Arguments are seen one by one, each in its place and in full.
pub proof fn every_argument_is_seen(list: Seq<Vec<u16>>)
    ensures
        texts(list).len() == list.len(),
        forall|i: int| 0 <= i < list.len() ==> (#[trigger] texts(list)[i]) == list[i]@,
{
}

} // verus!
