//! What holds of the console and of the texts that it reads.

use crate::console_model::{ConsoleV, Key, Screen, COMMANDS_KEPT, SCREENS_KEPT};
use crate::rpte_model::RpteV;
use crate::text::{all_digits, digit, digit_value, digits, digits_value, is_digit, parsed};
use vstd::prelude::*;

verus! {

/// A number that is written out has digits only, and their value is the number.
proof fn lemma_digits(n: nat)
    ensures
        digits(n).len() > 0,
        all_digits(digits(n)),
        digits_value(digits(n)) == n,
    decreases n,
{
    lemma_digit(n % 10);
    if n < 10 {
        assert(digits(n).drop_last() =~= Seq::empty());
        assert(digits_value(Seq::<char>::empty()) == 0);
    } else {
        lemma_digits(n / 10);
        assert(digits(n).drop_last() =~= digits(n / 10));
    }
}

/// The value of a digit that is written out is the digit.
proof fn lemma_digit(n: nat)
    requires
        n < 10,
    ensures
        is_digit(digit(n)),
        digit_value(digit(n)) == n,
{
}

/// A number that is written out is read back.
pub proof fn law_number_read_back(n: nat, max: nat)
    requires
        n <= max,
    ensures
        parsed(digits(n), max) == Some(n),
{
    lemma_digits(n);
    assert(is_digit(digits(n)[0]));
}

/// The console never remembers more commands than it may.
pub proof fn law_commands_bounded<L>(c: ConsoleV, key: Key, r: RpteV<L>)
    requires
        c.commands.len() <= COMMANDS_KEPT,
    ensures
        c.pressed(key, r).0.commands.len() <= COMMANDS_KEPT,
{
    let cmd = crate::text::trimmed(c.line);
    lemma_execution_keeps(ConsoleV { typing: false, ..c }.remembered(cmd), cmd, r);
}

/// A command changes neither the commands so far nor what is typed.
proof fn lemma_execution_keeps<L>(c: ConsoleV, cmd: Seq<char>, r: RpteV<L>)
    ensures
        c.executed(cmd, r).0.commands == c.commands,
        c.executed(cmd, r).0.line == c.line,
{
}

/// Changing the screen never makes the console remember more screens than it may.
pub proof fn law_screens_bounded(c: ConsoleV, screen: Screen)
    requires
        c.screens.len() <= SCREENS_KEPT,
    ensures
        c.switched(screen).screens.len() <= SCREENS_KEPT,
        c.switched(screen).screen == screen,
{
}

/// A character that is typed and taken back leaves the command as it was.
pub proof fn law_type_and_erase(c: ConsoleV, ch: char)
    requires
        c.wf(),
        c.line.len() < usize::MAX,
    ensures
        c.edited(Key::Char(ch)).edited(Key::Backspace).line == c.line,
        c.edited(Key::Char(ch)).edited(Key::Backspace).cursor == c.cursor,
{
    let typed = c.edited(Key::Char(ch));
    assert(typed.edited(Key::Backspace).line =~= c.line);
}

/// Going back to the screen before and forward again shows the screen that was shown.
pub proof fn law_back_and_forward(c: ConsoleV)
    requires
        c.wf(),
        c.can_go_back(),
        c.screens.len() < usize::MAX,
        c.screen_index matches Some(i) ==> c.screens[i as int] == c.screen,
    ensures
        c.gone_back().gone_forward().screen == c.screen,
{
}

/// The last command is the first one to be recalled.
pub proof fn law_last_command_recalled(c: ConsoleV, cmd: Seq<char>)
    requires
        cmd.len() > 0,
        c.command_index is None,
        c.commands.len() <= COMMANDS_KEPT,
    ensures
        c.remembered(cmd).recalled_back().line == cmd,
{
}

/// A command leaves the engine alone, unless it asks for an order and nothing speaks against it;
/// it then sends one message.
pub proof fn law_commands_and_engine<L>(c: ConsoleV, cmd: Seq<char>, r: RpteV<L>)
    ensures
        ({
            let (n, s) = c.executed(cmd, r);
            ||| s == r
            ||| exists|m: crate::node::MsgV| s == #[trigger] r.with_msg(m)
        }),
{
}

/// Nobody trades before they have logged in.
pub proof fn law_no_trade_without_account<L>(c: ConsoleV, cmd: Seq<char>, r: RpteV<L>)
    requires
        c.account is None,
    ensures
        c.executed(cmd, r).1 == r,
{
}

} // verus!
