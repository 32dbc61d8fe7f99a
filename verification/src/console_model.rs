//! What the console is and how keys and commands change it.

use crate::decimal::{decimal_parsed, decimal_quotient, decimal_text, Decimal};
use crate::error::Error;
use crate::node::MsgV;
use crate::rpte_model::RpteV;
use crate::text::{digits, parsed, trimmed, words};
use crate::trade_log::{candle_data, last_candle, CandleData};
use vstd::prelude::*;

verus! {

/// How many commands the console remembers.
pub const COMMANDS_KEPT: usize = 50;

/// How many screens the console remembers.
pub const SCREENS_KEPT: usize = 10;

/// What the console shows.
#[derive(Clone, Copy, Debug, PartialEq, Eq, Structural)]
pub enum Screen {
    /// All pairs and their prices.
    Pairs,
    /// The candles of a pair.
    Kline { src: usize, dst: usize },
    /// What the account holds.
    Balance,
    /// The open orders of the account.
    Orders,
    /// The commands.
    Help,
}

/// A key.
#[derive(Clone, Copy, Debug, PartialEq, Eq, Structural)]
pub enum Key {
    Char(char),
    Enter,
    Esc,
    Up,
    Down,
    Left,
    Right,
    Backspace,
    Delete,
    Home,
    End,
    Other,
}

/// What the account holds of a token.
#[verifier::ext_equal]
pub struct BalanceV {
    pub name: Seq<char>,
    pub available: Decimal,
    pub equity: Decimal,
    pub converted: Decimal,
}

/// The console.
#[verifier::ext_equal]
pub struct ConsoleV {
    pub screen: Screen,
    /// The command that is being typed.
    pub line: Seq<char>,
    /// Where in the command the next character goes.
    pub cursor: usize,
    /// Whether a command is being typed.
    pub typing: bool,
    pub msg: Seq<char>,
    pub interval: u64,
    pub max_candles: usize,
    pub refresh_interval: u64,
    pub account: Option<usize>,
    /// The commands so far, the last one at the end.
    pub commands: Seq<Seq<char>>,
    /// The earlier command that is shown.
    pub command_index: Option<usize>,
    pub quit: bool,
    pub refresh_count: u64,
    /// The screens so far, the last one at the end.
    pub screens: Seq<Screen>,
    /// The earlier screen that is shown.
    pub screen_index: Option<usize>,
    pub pairs: Seq<(usize, usize, usize, Decimal)>,
    pub balances: Seq<BalanceV>,
    pub candles: Seq<CandleData>,
    pub live_candle: Option<CandleData>,
    pub current_price: Option<(Decimal, usize, usize)>,
}

/// A sequence without its first element where it has more than `limit`.
pub open spec fn kept<T>(s: Seq<T>, limit: usize) -> Seq<T> {
    if s.len() > limit {
        s.drop_first()
    } else {
        s
    }
}

/// The last `limit` elements.
pub open spec fn latest<T>(s: Seq<T>, limit: usize) -> Seq<T> {
    if s.len() > limit {
        s.subrange(s.len() - limit, s.len() as int)
    } else {
        s
    }
}

/// The name of a token, a question mark where it has none.
pub open spec fn name_or_mark<L>(r: RpteV<L>, token: usize) -> Seq<char> {
    match r.ledger.token_name(token) {
        Some(name) => name,
        None => "?"@,
    }
}

/// The volume that a text asks for: a number, or, after a slash, what the account holds of the
/// token divided by a number. The error is what the console says.
pub open spec fn volume_of<L>(input: Seq<char>, r: RpteV<L>, account: usize, token: usize) -> Result<
    Decimal,
    Seq<char>,
> {
    if input.len() > 0 && input[0] == '/' {
        match parsed(input.drop_first(), u64::MAX as nat) {
            Some(divisor) => if divisor == 0 {
                Err("Division by zero"@)
            } else {
                match r.ledger.account_equity(account, token) {
                    Ok(equity) => match decimal_quotient(
                        equity,
                        Decimal::of(divisor as int, 0),
                    ) {
                        Some(v) => Ok(r.rounded(v)),
                        None => Err("Equity query failed: "@ + Error::Overflow.text()),
                    },
                    Err(e) => Err("Equity query failed: "@ + e.text()),
                }
            },
            None => Err("Invalid fraction: "@ + input),
        }
    } else {
        match decimal_parsed(input) {
            Some(v) => Ok(v),
            None => Err("Invalid volume: "@ + input),
        }
    }
}

impl ConsoleV {
    /// A console that shows all pairs.
    pub open spec fn fresh(interval: u64, max_candles: usize, refresh_interval: u64) -> ConsoleV {
        ConsoleV {
            screen: Screen::Pairs,
            line: Seq::empty(),
            cursor: 0,
            typing: false,
            msg: ""@,
            interval,
            max_candles,
            refresh_interval,
            account: None,
            commands: Seq::empty(),
            command_index: None,
            quit: false,
            refresh_count: 0,
            screens: Seq::empty(),
            screen_index: None,
            pairs: Seq::empty(),
            balances: Seq::empty(),
            candles: Seq::empty(),
            live_candle: None,
            current_price: None,
        }
    }

    /// The console of an account, if one is given.
    pub open spec fn greeted(self, account: Option<usize>) -> ConsoleV {
        match account {
            Some(id) => ConsoleV {
                account,
                msg: "Logged in as account #"@ + digits(id as nat) + "  |  :help for commands"@,
                ..self
            },
            None => ConsoleV { msg: "Type :help for commands"@, ..self },
        }
    }

    /// The cursor is in the command, and the earlier command and the earlier screen that are
    /// shown are among those that are remembered.
    pub open spec fn wf(self) -> bool {
        &&& self.cursor <= self.line.len()
        &&& self.line.len() <= usize::MAX
        &&& self.command_index matches Some(i) ==> i < self.commands.len()
        &&& self.screen_index matches Some(i) ==> i < self.screens.len()
    }

    pub open spec fn with_msg(self, msg: Seq<char>) -> ConsoleV {
        ConsoleV { msg, ..self }
    }

    // ---- screens ----

    /// The console with another screen. The one before is remembered.
    pub open spec fn switched(self, screen: Screen) -> ConsoleV {
        if self.screen == screen {
            self
        } else {
            ConsoleV {
                screens: kept(self.screens.push(self.screen), SCREENS_KEPT),
                screen,
                screen_index: None,
                ..self
            }
        }
    }

    /// Whether there is a screen before the one that is shown.
    pub open spec fn can_go_back(self) -> bool {
        self.screens.len() > 0 && self.screen_index != Some(0usize)
    }

    /// The console with the screen before.
    pub open spec fn gone_back(self) -> ConsoleV {
        if !self.can_go_back() {
            self
        } else {
            let (screens, i) = match self.screen_index {
                Some(i) => (self.screens, i - 1),
                None => (self.screens.push(self.screen), self.screens.len() - 1),
            };
            ConsoleV { screens, screen_index: Some(i as usize), screen: screens[i], ..self }
        }
    }

    /// The console with the screen after.
    pub open spec fn gone_forward(self) -> ConsoleV {
        match self.screen_index {
            Some(i) => if i + 1 >= self.screens.len() {
                ConsoleV { screen_index: None, ..self }
            } else {
                ConsoleV {
                    screen_index: Some((i + 1) as usize),
                    screen: self.screens[i + 1],
                    ..self
                }
            },
            None => self,
        }
    }

    // ---- commands so far ----

    /// The console with a text to type on.
    pub open spec fn with_line(self, line: Seq<char>) -> ConsoleV {
        ConsoleV { line, cursor: line.len() as usize, ..self }
    }

    /// Whether there is a command before the one that is shown.
    pub open spec fn can_recall(self) -> bool {
        self.commands.len() > 0 && self.command_index != Some(0usize)
    }

    /// The console with the command before.
    pub open spec fn recalled_back(self) -> ConsoleV {
        if !self.can_recall() {
            self
        } else {
            let i = match self.command_index {
                Some(i) => i - 1,
                None => self.commands.len() - 1,
            };
            ConsoleV { command_index: Some(i as usize), ..self.with_line(self.commands[i]) }
        }
    }

    /// The console with the command after, or with an empty one after the last.
    pub open spec fn recalled_forward(self) -> ConsoleV {
        match self.command_index {
            Some(i) => if i + 1 >= self.commands.len() {
                ConsoleV { command_index: None, ..self.with_line(Seq::empty()) }
            } else {
                ConsoleV {
                    command_index: Some((i + 1) as usize),
                    ..self.with_line(self.commands[i + 1])
                }
            },
            None => self,
        }
    }

    /// The console with one more command, unless it is empty or the last one again.
    pub open spec fn remembered(self, cmd: Seq<char>) -> ConsoleV {
        if cmd.len() == 0 || (self.commands.len() > 0 && self.commands.last() == cmd) {
            self
        } else {
            ConsoleV { commands: kept(self.commands.push(cmd), COMMANDS_KEPT), ..self }
        }
    }

    // ---- commands ----

    /// The console after a command to show candles.
    pub open spec fn kline_shown<L>(self, w: Seq<Seq<char>>, r: RpteV<L>) -> ConsoleV {
        let usage = "Usage: kline <pair_id>  or  kline <quote_token> <base_token>"@;
        if w.len() < 2 {
            self.with_msg(usage)
        } else if w.len() == 2 {
            match parsed(w[1], usize::MAX as nat) {
                Some(id) => match r.ledger.pair(id as usize) {
                    Ok(p) => self.switched(
                        Screen::Kline { src: p.quote_token, dst: p.base_token },
                    ).with_msg(
                        "Showing K-line: "@ + name_or_mark(r, p.quote_token) + "/"@ + name_or_mark(
                            r,
                            p.base_token,
                        ) + " (#"@ + digits(id) + ")"@,
                    ),
                    Err(_) => self.with_msg("Pair #"@ + digits(id) + " not found"@),
                },
                None => self.with_msg(usage),
            }
        } else {
            match r.ledger.token_by_name(w[1]) {
                Some(src) => match r.ledger.token_by_name(w[2]) {
                    Some(dst) => self.switched(Screen::Kline { src, dst }).with_msg(
                        "Showing K-line: "@ + w[1] + "/"@ + w[2],
                    ),
                    None => self.with_msg("Token not found: "@ + w[2]),
                },
                None => self.with_msg("Token not found: "@ + w[1]),
            }
        }
    }

    /// The console after a command to act for an account.
    pub open spec fn logged_in(self, w: Seq<Seq<char>>) -> ConsoleV {
        if w.len() < 2 {
            self.with_msg("Usage: login <account_id>"@)
        } else {
            match parsed(w[1], usize::MAX as nat) {
                Some(id) => ConsoleV {
                    account: Some(id as usize),
                    balances: Seq::empty(),
                    ..self.with_msg("Logged in as account #"@ + digits(id))
                },
                None => self.with_msg("Invalid account ID (must be a number)"@),
            }
        }
    }

    /// The console after a command to show something of the account.
    pub open spec fn account_shown(self, screen: Screen, msg: Seq<char>) -> ConsoleV {
        if self.account is None {
            self.with_msg("Not logged in. Use :login <account_id> first"@)
        } else {
            self.switched(screen).with_msg(msg)
        }
    }

    /// What a command to trade asks for, or what the console says of it: the account, the token
    /// that is given, the one that is taken, the volume and, in a limit order, the price.
    pub open spec fn order_asked<L>(self, w: Seq<Seq<char>>, r: RpteV<L>, limit: bool) -> Result<
        (usize, usize, usize, Decimal, Decimal),
        Seq<char>,
    > {
        if self.account is None {
            Err("Not logged in. Use :login <account_id> first"@)
        } else if limit && w.len() < 5 {
            Err("Usage: make <src_token> <dst_token> <volume> <price>"@)
        } else if w.len() < 4 {
            Err("Usage: swap <src_token> <dst_token> <volume>"@)
        } else {
            match r.ledger.token_by_name(w[1]) {
                Some(src) => match r.ledger.token_by_name(w[2]) {
                    Some(dst) => match volume_of(w[3], r, self.account->0, src) {
                        Ok(volume) => {
                            let price = if limit {
                                decimal_parsed(w[4])
                            } else {
                                Some(Decimal::of(0, 0))
                            };
                            if price is None {
                                Err("Invalid price"@)
                            } else if !r.ledger.swap_allowed(src, dst) {
                                Err(
                                    "Trade not allowed: "@ + w[1] + " ↔ "@ + w[2]
                                        + " (whitelist restriction)"@,
                                )
                            } else {
                                Ok((self.account->0, src, dst, volume, price->0))
                            }
                        },
                        Err(e) => Err(e),
                    },
                    None => Err("Token not found: "@ + w[2]),
                },
                None => Err("Token not found: "@ + w[1]),
            }
        }
    }

    /// The console and the engine after a command to open a limit order.
    pub open spec fn made<L>(self, w: Seq<Seq<char>>, r: RpteV<L>) -> (ConsoleV, RpteV<L>) {
        match self.order_asked(w, r, true) {
            Ok((account, src, dst, volume, price)) => (
                self.with_msg(
                    "Limit order placed: account #"@ + digits(account as nat) + " "@ + w[1] + "→"@
                        + w[2] + " vol="@ + decimal_text(volume) + " price="@ + decimal_text(price),
                ),
                r.with_msg(
                    MsgV::OpenOrder {
                        src_id: account,
                        owner_node_id: account,
                        src_token: src,
                        dst_token: dst,
                        volume: r.rounded(volume),
                        price: r.rounded(price),
                    },
                ),
            ),
            Err(msg) => (self.with_msg(msg), r),
        }
    }

    /// The console and the engine after a command to trade at the market's price.
    pub open spec fn swapped<L>(self, w: Seq<Seq<char>>, r: RpteV<L>) -> (ConsoleV, RpteV<L>) {
        match self.order_asked(w, r, false) {
            Ok((account, src, dst, volume, _)) => (
                self.with_msg(
                    "Market order placed: account #"@ + digits(account as nat) + " "@ + w[1] + "→"@
                        + w[2] + " vol="@ + decimal_text(volume),
                ),
                r.with_msg(
                    MsgV::SwapOrder {
                        src_id: account,
                        owner_node_id: account,
                        src_token: src,
                        dst_token: dst,
                        volume: r.rounded(volume),
                    },
                ),
            ),
            Err(msg) => (self.with_msg(msg), r),
        }
    }

    /// The console and the engine after a command.
    pub open spec fn executed<L>(self, cmd: Seq<char>, r: RpteV<L>) -> (ConsoleV, RpteV<L>) {
        let w = words(cmd);
        if w.len() == 0 {
            (self, r)
        } else if w[0] == "pairs"@ || w[0] == "p"@ {
            (self.switched(Screen::Pairs).with_msg("Switched to pairs list"@), r)
        } else if w[0] == "kline"@ || w[0] == "k"@ {
            (self.kline_shown(w, r), r)
        } else if w[0] == "login"@ || w[0] == "l"@ {
            (self.logged_in(w), r)
        } else if w[0] == "bal"@ || w[0] == "b"@ {
            (self.account_shown(Screen::Balance, "Showing balances"@), r)
        } else if w[0] == "orders"@ || w[0] == "o"@ {
            (self.account_shown(Screen::Orders, "Showing orders"@), r)
        } else if w[0] == "make"@ || w[0] == "m"@ {
            self.made(w, r)
        } else if w[0] == "swap"@ || w[0] == "s"@ {
            self.swapped(w, r)
        } else if w[0] == "q"@ || w[0] == "quit"@ {
            (ConsoleV { quit: true, ..self }, r)
        } else if w[0] == "help"@ || w[0] == "h"@ || w[0] == "?"@ {
            (self.switched(Screen::Help).with_msg(""@), r)
        } else {
            (self.with_msg("Unknown command: "@ + w[0] + ". Type :help"@), r)
        }
    }

    // ---- keys ----

    /// The console and the engine after the command that was typed.
    pub open spec fn entered<L>(self, r: RpteV<L>) -> (ConsoleV, RpteV<L>) {
        let cmd = trimmed(self.line);
        let c = ConsoleV { typing: false, ..self };
        let (n, s) = if cmd.len() == 0 {
            (c, r)
        } else {
            c.remembered(cmd).executed(cmd, r)
        };
        (ConsoleV { command_index: None, ..n.with_line(Seq::empty()) }, s)
    }

    /// The console after a key other than Enter, while a command is being typed.
    pub open spec fn edited(self, key: Key) -> ConsoleV {
        match key {
            Key::Enter => self,
            Key::Esc => ConsoleV {
                typing: false,
                command_index: None,
                ..self.with_line(Seq::empty())
            },
            Key::Up => self.recalled_back(),
            Key::Down => self.recalled_forward(),
            Key::Char(c) => ConsoleV {
                command_index: None,
                line: self.line.insert(self.cursor as int, c),
                cursor: (self.cursor + 1) as usize,
                ..self
            },
            Key::Backspace => if self.cursor > 0 {
                ConsoleV {
                    line: self.line.remove(self.cursor - 1),
                    cursor: (self.cursor - 1) as usize,
                    ..self
                }
            } else {
                self
            },
            Key::Delete => if self.cursor < self.line.len() {
                ConsoleV { line: self.line.remove(self.cursor as int), ..self }
            } else {
                self
            },
            Key::Left => if self.cursor > 0 {
                ConsoleV { cursor: (self.cursor - 1) as usize, ..self }
            } else {
                self
            },
            Key::Right => if self.cursor < self.line.len() {
                ConsoleV { cursor: (self.cursor + 1) as usize, ..self }
            } else {
                self
            },
            Key::Home => ConsoleV { cursor: 0, ..self },
            Key::End => ConsoleV { cursor: self.line.len() as usize, ..self },
            Key::Other => self,
        }
    }

    /// Whether a key leaves the console.
    pub open spec fn leaves(self, key: Key) -> bool {
        !self.typing && (key == Key::Esc || key == Key::Char('q'))
    }

    /// The console after a key, while no command is being typed.
    pub open spec fn steered(self, key: Key) -> ConsoleV {
        match key {
            Key::Char(c) => if c == ':' {
                ConsoleV { typing: true, ..self.with_line(Seq::empty()) }
            } else {
                self
            },
            Key::Up => (ConsoleV { typing: true, ..self }).recalled_back(),
            Key::Down => (ConsoleV { typing: true, ..self }).recalled_forward(),
            Key::Left => if self.can_go_back() {
                self.gone_back().with_msg(""@)
            } else {
                self
            },
            Key::Right => if self.screen_index is Some {
                self.gone_forward().with_msg(""@)
            } else {
                self
            },
            _ => self,
        }
    }

    /// The console and the engine after a key.
    pub open spec fn pressed<L>(self, key: Key, r: RpteV<L>) -> (ConsoleV, RpteV<L>) {
        if !self.typing {
            (self.steered(key), r)
        } else if key == Key::Enter {
            self.entered(r)
        } else {
            (self.edited(key), r)
        }
    }

    // ---- what is shown ----

    /// What the account holds of the first `k` tokens, without those that it holds nothing of.
    /// `None` where a number overflows.
    pub open spec fn holdings<L>(r: RpteV<L>, account: usize, k: nat) -> Option<Seq<BalanceV>>
        decreases k,
    {
        if k == 0 {
            Some(Seq::empty())
        } else {
            let token = r.ledger.tokens[k - 1].0;
            match Self::holdings(r, account, (k - 1) as nat) {
                Some(rows) => match Self::equity_or_zero(r, account, token) {
                    Some(equity) => if equity.val() == 0 {
                        Some(rows)
                    } else {
                        let converted = if token == r.ledger.quote {
                            Some(equity)
                        } else {
                            r.ledger.exchanged(token, r.ledger.quote, equity)
                        };
                        match converted {
                            Some(converted) => Some(
                                rows.push(
                                    BalanceV {
                                        name: name_or_mark(r, token),
                                        available: match r.ledger.node_balance(account, token) {
                                            Ok(v) => v,
                                            Err(_) => Decimal::of(0, 0),
                                        },
                                        equity,
                                        converted,
                                    },
                                ),
                            ),
                            None => None,
                        }
                    },
                    None => None,
                },
                None => None,
            }
        }
    }

    /// What an account holds of a token, zero where there is no such account. `None` where a
    /// number overflows.
    pub open spec fn equity_or_zero<L>(r: RpteV<L>, account: usize, token: usize) -> Option<
        Decimal,
    > {
        match r.ledger.account_equity(account, token) {
            Ok(v) => Some(v),
            Err(Error::Overflow) => None,
            Err(_) => Some(Decimal::of(0, 0)),
        }
    }

    /// Whether what is shown of pairs and balances is to be read again.
    pub open spec fn is_due(self) -> bool {
        self.refresh_count as int % (if self.refresh_interval == 0 {
            1int
        } else {
            self.refresh_interval as int
        }) == 0
    }

    /// The console with the pairs and the balances as they are now.
    pub open spec fn tables_read<L>(self, r: RpteV<L>) -> Option<ConsoleV> {
        let c = ConsoleV { pairs: r.ledger.pairs_info(r.ledger.pairs.len()), ..self };
        match self.account {
            Some(account) => match Self::holdings(r, account, r.ledger.tokens.len()) {
                Some(balances) => Some(ConsoleV { balances, ..c }),
                None => None,
            },
            None => Some(c),
        }
    }

    /// The console with the candles of a pair, which is made where there is none.
    pub open spec fn candles_read<L>(self, src: usize, dst: usize, r: RpteV<L>) -> Option<
        (ConsoleV, RpteV<L>),
    > {
        match r.ledger.pair_for(src, dst) {
            Ok((l, id, _)) => {
                let p = l.node(id).pair();
                match candle_data(p.logs, self.interval) {
                    Some(candles) => match last_candle(p.logs, self.interval) {
                        Some(live_candle) => Some(
                            (
                                ConsoleV {
                                    candles: latest(candles, self.max_candles),
                                    current_price: Some((p.price, p.quote_token, p.base_token)),
                                    live_candle,
                                    ..self
                                },
                                r.with_ledger(l),
                            ),
                        ),
                        None => None,
                    },
                    None => None,
                }
            },
            Err(_) => Some(
                (
                    ConsoleV {
                        candles: Seq::empty(),
                        current_price: None,
                        live_candle: None,
                        ..self
                    },
                    r,
                ),
            ),
        }
    }

    /// The console with what is shown as it is now, and the engine. `None` where a number
    /// overflows.
    pub open spec fn refreshed<L>(self, r: RpteV<L>) -> Option<(ConsoleV, RpteV<L>)> {
        if self.refresh_count == u64::MAX {
            None
        } else {
            let c = ConsoleV { refresh_count: (self.refresh_count + 1) as u64, ..self };
            let read = if c.is_due() {
                c.tables_read(r)
            } else {
                Some(c)
            };
            match read {
                Some(c) => match c.screen {
                    Screen::Kline { src, dst } => c.candles_read(src, dst, r),
                    _ => Some((c, r)),
                },
                None => None,
            }
        }
    }
}

} // verus!
