//! The console: what it shows, the commands it takes and the keys they are typed with.

use crate::console_model::{
    latest, name_or_mark, volume_of, BalanceV, ConsoleV, Key, Screen, COMMANDS_KEPT, SCREENS_KEPT,
};
use crate::contract::ContractLogic;
use crate::decimal::Decimal;
use crate::error::Error;
use crate::ledger_laws::law_pair_found_again;
use crate::rpte::Rpte;
use crate::rpte_model::RpteV;
use crate::text::{
    copy_chars, number, parse_u64, parse_usize, same_text, split_words, text_of, trim, words,
    words_view,
};
use crate::trade_log::CandleData;
use std::collections::VecDeque;
use vstd::prelude::*;

verus! {

/// What the account holds of a token.
pub struct BalanceRow {
    /// The name of the token.
    pub name: String,
    /// What the account's own balance is.
    pub available: Decimal,
    /// What it holds together with its open orders.
    pub equity: Decimal,
    /// The same in the quote token.
    pub converted: Decimal,
}

impl View for BalanceRow {
    type V = BalanceV;

    open spec fn view(&self) -> BalanceV {
        BalanceV {
            name: self.name@,
            available: self.available,
            equity: self.equity,
            converted: self.converted,
        }
    }
}

/// What rows are.
pub open spec fn rows_view(rows: Seq<BalanceRow>) -> Seq<BalanceV> {
    rows.map_values(|r: BalanceRow| r@)
}

/// The console.
pub struct Console {
    screen: Screen,
    line: Vec<char>,
    cursor: usize,
    typing: bool,
    msg: String,
    interval: u64,
    max_candles: usize,
    refresh_interval: u64,
    account: Option<usize>,
    commands: Vec<Vec<char>>,
    command_index: Option<usize>,
    quit: bool,
    refresh_count: u64,
    screens: Vec<Screen>,
    screen_index: Option<usize>,
    pairs: Vec<(usize, usize, usize, Decimal)>,
    balances: Vec<BalanceRow>,
    candles: VecDeque<CandleData>,
    live_candle: Option<CandleData>,
    current_price: Option<(Decimal, usize, usize)>,
}

impl View for Console {
    type V = ConsoleV;

    closed spec fn view(&self) -> ConsoleV {
        ConsoleV {
            screen: self.screen,
            line: self.line@,
            cursor: self.cursor,
            typing: self.typing,
            msg: self.msg@,
            interval: self.interval,
            max_candles: self.max_candles,
            refresh_interval: self.refresh_interval,
            account: self.account,
            commands: words_view(self.commands@),
            command_index: self.command_index,
            quit: self.quit,
            refresh_count: self.refresh_count,
            screens: self.screens@,
            screen_index: self.screen_index,
            pairs: self.pairs@,
            balances: rows_view(self.balances@),
            candles: self.candles@,
            live_candle: self.live_candle,
            current_price: self.current_price,
        }
    }
}

/// The volume that a text asks for: a number, or, after a slash, what the account holds of the
/// token divided by a number.
pub fn parse_vol<L: ContractLogic>(
    input: &Vec<char>,
    engine: &Rpte<L>,
    account_id: usize,
    src_token: usize,
) -> (r: Result<Decimal, String>)
    ensures
        match volume_of(input@, engine@, account_id, src_token) {
            Ok(v) => r is Ok && r->Ok_0 == v,
            Err(e) => r is Err && (r->Err_0)@ == e,
        },
{
    if input.len() > 0 && input[0] == '/' {
        let mut rest = copy_chars(input);
        rest.remove(0);
        assert(rest@ =~= input@.drop_first());
        match parse_u64(&rest) {
            Some(divisor) => {
                if divisor == 0 {
                    return Err("Division by zero".to_owned());
                }
                match engine.get_account_equity_token(account_id, src_token) {
                    Ok(equity) => match equity.checked_div(Decimal::from(divisor)) {
                        Some(v) => Ok(engine.round(v)),
                        None => Err(joined("Equity query failed: ", &Error::Overflow.message())),
                    },
                    Err(e) => Err(joined("Equity query failed: ", &e.message())),
                }
            },
            None => Err(joined("Invalid fraction: ", &text_of(input))),
        }
    } else {
        let text = text_of(input);
        match Decimal::parse(text.as_str()) {
            Some(v) => Ok(v),
            None => Err(joined("Invalid volume: ", &text)),
        }
    }
}

/// The first text followed by the second one.
fn joined(a: &str, b: &String) -> (r: String)
    ensures
        r@ == a@ + b@,
{
    let mut r: String = a.to_owned();
    r.push_str(b.as_str());
    r
}

/// The name of a token, a question mark where it has none.
pub(crate) fn name_of<L: ContractLogic>(engine: &Rpte<L>, token: usize) -> (r: String)
    ensures
        r@ == name_or_mark(engine@, token),
{
    match engine.get_token_name(token) {
        Some(name) => name.to_owned(),
        None => "?".to_owned(),
    }
}

impl Console {
    /// A console that shows all pairs.
    pub fn new(interval: u64, max_candles: usize, refresh_interval: u64) -> (r: Console)
        ensures
            r@ == ConsoleV::fresh(interval, max_candles, refresh_interval),
            r@.wf(),
    {
        let r = Console {
            screen: Screen::Pairs,
            line: Vec::new(),
            cursor: 0,
            typing: false,
            msg: "".to_owned(),
            interval,
            max_candles,
            refresh_interval,
            account: None,
            commands: Vec::new(),
            command_index: None,
            quit: false,
            refresh_count: 0,
            screens: Vec::new(),
            screen_index: None,
            pairs: Vec::new(),
            balances: Vec::new(),
            candles: VecDeque::new(),
            live_candle: None,
            current_price: None,
        };
        assert(r@ =~= ConsoleV::fresh(interval, max_candles, refresh_interval));
        r
    }

    /// Begins to act for an account, if one is given, and says so.
    pub fn greet(&mut self, account: Option<usize>)
        ensures
            final(self)@ == old(self)@.greeted(account),
            old(self)@.wf() ==> final(self)@.wf(),
    {
        match account {
            Some(id) => {
                self.account = account;
                let mut msg = joined("Logged in as account #", &number(id));
                msg.push_str("  |  :help for commands");
                self.msg = msg;
            },
            None => {
                self.msg = "Type :help for commands".to_owned();
            },
        }
    }

    /// Sets what the console says.
    pub fn set_msg(&mut self, msg: &str)
        ensures
            final(self)@ == old(self)@.with_msg(msg@),
    {
        self.msg = msg.to_owned();
    }

    // ---- what is shown ----

    /// The screen.
    pub fn screen(&self) -> (r: Screen)
        ensures
            r == self@.screen,
    {
        self.screen
    }

    /// The command that is being typed.
    pub fn line(&self) -> (r: String)
        ensures
            r@ == self@.line,
    {
        text_of(&self.line)
    }

    /// Where in the command the next character goes.
    pub fn cursor(&self) -> (r: usize)
        ensures
            r == self@.cursor,
    {
        self.cursor
    }

    /// Whether a command is being typed.
    pub fn is_typing(&self) -> (r: bool)
        ensures
            r == self@.typing,
    {
        self.typing
    }

    /// What the console says.
    pub fn msg(&self) -> (r: &str)
        ensures
            r@ == self@.msg,
    {
        self.msg.as_str()
    }

    /// The account that the console acts for.
    pub fn account(&self) -> (r: Option<usize>)
        ensures
            r == self@.account,
    {
        self.account
    }

    /// Whether a command asked to leave.
    pub fn quit_requested(&self) -> (r: bool)
        ensures
            r == self@.quit,
    {
        self.quit
    }

    /// The pairs, each with its quote token, its base token and its price.
    pub fn pairs(&self) -> (r: &Vec<(usize, usize, usize, Decimal)>)
        ensures
            r@ == self@.pairs,
    {
        &self.pairs
    }

    /// What the account holds.
    pub fn balances(&self) -> (r: &Vec<BalanceRow>)
        ensures
            rows_view(r@) == self@.balances,
    {
        &self.balances
    }

    /// The candles.
    pub fn candles(&self) -> (r: &VecDeque<CandleData>)
        ensures
            r@ == self@.candles,
    {
        &self.candles
    }

    /// The candle of the interval that the last trade lies in.
    pub fn live_candle(&self) -> (r: Option<CandleData>)
        ensures
            r == self@.live_candle,
    {
        self.live_candle
    }

    /// The price of the pair that is shown, with its quote and its base token.
    pub fn current_price(&self) -> (r: Option<(Decimal, usize, usize)>)
        ensures
            r == self@.current_price,
    {
        self.current_price
    }

    // ---- screens ----

    /// Shows another screen and remembers the one before.
    pub fn switch_view(&mut self, screen: Screen)
        ensures
            final(self)@ == old(self)@.switched(screen),
            old(self)@.wf() ==> final(self)@.wf(),
    {
        if self.screen == screen {
            return;
        }
        self.screens.push(self.screen);
        if self.screens.len() > SCREENS_KEPT {
            self.screens.remove(0);
            assert(self.screens@ =~= old(self).screens@.push(old(self).screen).drop_first());
        }
        self.screen = screen;
        self.screen_index = None;
    }

    /// Shows the screen before, if there is one.
    pub fn view_history_back(&mut self) -> (r: bool)
        requires
            old(self)@.wf(),
        ensures
            r == old(self)@.can_go_back(),
            final(self)@ == old(self)@.gone_back(),
            final(self)@.wf(),
    {
        if self.screens.len() == 0 {
            return false;
        }
        let i: usize = match self.screen_index {
            Some(i) => {
                if i == 0 {
                    return false;
                }
                i - 1
            },
            None => {
                self.screens.push(self.screen);
                self.screens.len() - 2
            },
        };
        self.screen_index = Some(i);
        self.screen = self.screens[i];
        true
    }

    /// Shows the screen after, if an earlier one is shown.
    pub fn view_history_forward(&mut self) -> (r: bool)
        requires
            old(self)@.wf(),
        ensures
            r == old(self)@.screen_index is Some,
            final(self)@ == old(self)@.gone_forward(),
            final(self)@.wf(),
    {
        match self.screen_index {
            Some(i) => {
                let count: usize = self.screens.len();
                let next: usize = i + 1;
                if next >= count {
                    self.screen_index = None;
                } else {
                    self.screen_index = Some(next);
                    self.screen = self.screens[next];
                }
                true
            },
            None => false,
        }
    }

    // ---- commands so far ----

    /// Puts the command before in the place of the one that is being typed, if there is one.
    pub fn history_back(&mut self) -> (r: bool)
        requires
            old(self)@.wf(),
        ensures
            r == old(self)@.can_recall(),
            final(self)@ == old(self)@.recalled_back(),
            final(self)@.wf(),
    {
        if self.commands.len() == 0 {
            return false;
        }
        let i: usize = match self.command_index {
            Some(i) => {
                if i == 0 {
                    return false;
                }
                i - 1
            },
            None => self.commands.len() - 1,
        };
        self.command_index = Some(i);
        self.line = copy_chars(&self.commands[i]);
        self.cursor = self.line.len();
        true
    }

    /// Puts the command after in the place of the earlier one that is shown, if there is one.
    pub fn history_forward(&mut self) -> (r: bool)
        requires
            old(self)@.wf(),
        ensures
            r == old(self)@.command_index is Some,
            final(self)@ == old(self)@.recalled_forward(),
            final(self)@.wf(),
    {
        match self.command_index {
            Some(i) => {
                let count: usize = self.commands.len();
                let next: usize = i + 1;
                if next >= count {
                    self.command_index = None;
                    self.line.clear();
                    self.cursor = 0;
                    assert(self.line@ =~= Seq::empty());
                } else {
                    self.command_index = Some(next);
                    self.line = copy_chars(&self.commands[next]);
                    self.cursor = self.line.len();
                }
                true
            },
            None => false,
        }
    }

    /// Remembers a command, unless it is empty or the last one again.
    pub fn push_history(&mut self, cmd: &Vec<char>)
        ensures
            final(self)@ == old(self)@.remembered(cmd@),
            old(self)@.wf() ==> final(self)@.wf(),
    {
        if cmd.len() == 0 {
            return;
        }
        if self.commands.len() > 0 {
            let last: usize = self.commands.len() - 1;
            assert(old(self)@.commands.last() == self.commands@[last as int]@);
            if same_text(&self.commands[last], text_of(cmd).as_str()) {
                return;
            }
        }
        self.commands.push(copy_chars(cmd));
        assert(words_view(self.commands@) =~= old(self)@.commands.push(cmd@));
        if self.commands.len() > COMMANDS_KEPT {
            self.commands.remove(0);
            assert(words_view(self.commands@) =~= old(self)@.commands.push(cmd@).drop_first());
        }
    }

    // ---- commands ----

    /// Shows the candles of a pair, given by its id or by its tokens.
    fn show_kline<L: ContractLogic>(&mut self, parts: &Vec<Vec<char>>, engine: &Rpte<L>)
        ensures
            final(self)@ == old(self)@.kline_shown(words_view(parts@), engine@),
            old(self)@.wf() ==> final(self)@.wf(),
    {
        let ghost w = words_view(parts@);
        assert(forall|i: int| 0 <= i < parts@.len() ==> w[i] == (#[trigger] parts@[i])@);
        if parts.len() < 2 {
            self.set_msg("Usage: kline <pair_id>  or  kline <quote_token> <base_token>");
        } else if parts.len() == 2 {
            match parse_usize(&parts[1]) {
                Some(pair_id) => {
                    match (
                        engine.get_pair_quote_token(pair_id),
                        engine.get_pair_base_token(pair_id),
                    ) {
                        (Ok(src), Ok(dst)) => {
                            self.switch_view(Screen::Kline { src, dst });
                            let mut msg = joined("Showing K-line: ", &name_of(engine, src));
                            msg.push_str("/");
                            msg.push_str(name_of(engine, dst).as_str());
                            msg.push_str(" (#");
                            msg.push_str(number(pair_id).as_str());
                            msg.push_str(")");
                            self.msg = msg;
                        },
                        _ => {
                            let mut msg = joined("Pair #", &number(pair_id));
                            msg.push_str(" not found");
                            self.msg = msg;
                        },
                    }
                },
                None => {
                    self.set_msg("Usage: kline <pair_id>  or  kline <quote_token> <base_token>");
                },
            }
        } else {
            let quote_name = text_of(&parts[1]);
            let base_name = text_of(&parts[2]);
            match engine.get_token_by_name(quote_name.as_str()) {
                Some(src) => match engine.get_token_by_name(base_name.as_str()) {
                    Some(dst) => {
                        self.switch_view(Screen::Kline { src, dst });
                        let mut msg = joined("Showing K-line: ", &quote_name);
                        msg.push_str("/");
                        msg.push_str(base_name.as_str());
                        self.msg = msg;
                    },
                    None => {
                        self.msg = joined("Token not found: ", &base_name);
                    },
                },
                None => {
                    self.msg = joined("Token not found: ", &quote_name);
                },
            }
        }
    }

    /// Begins to act for an account.
    fn log_in(&mut self, parts: &Vec<Vec<char>>)
        ensures
            final(self)@ == old(self)@.logged_in(words_view(parts@)),
            old(self)@.wf() ==> final(self)@.wf(),
    {
        if parts.len() < 2 {
            self.set_msg("Usage: login <account_id>");
            return;
        }
        assert(words_view(parts@)[1] == parts@[1]@);
        match parse_usize(&parts[1]) {
            Some(id) => {
                self.account = Some(id);
                self.balances = Vec::new();
                self.msg = joined("Logged in as account #", &number(id));
                assert(rows_view(self.balances@) =~= Seq::empty());
            },
            None => {
                self.set_msg("Invalid account ID (must be a number)");
            },
        }
    }

    /// Shows something of the account.
    fn show_account(&mut self, screen: Screen, msg: &str)
        ensures
            final(self)@ == old(self)@.account_shown(screen, msg@),
            old(self)@.wf() ==> final(self)@.wf(),
    {
        if self.account.is_none() {
            self.set_msg("Not logged in. Use :login <account_id> first");
        } else {
            self.switch_view(screen);
            self.set_msg(msg);
        }
    }

    /// What a command to trade asks for, or what to say of it.
    fn asked<L: ContractLogic>(&self, parts: &Vec<Vec<char>>, engine: &Rpte<L>, limit: bool) -> (r:
        Result<(usize, usize, usize, Decimal, Decimal), String>)
        ensures
            match self@.order_asked(words_view(parts@), engine@, limit) {
                Ok(order) => r is Ok && r->Ok_0 == order,
                Err(e) => r is Err && (r->Err_0)@ == e,
            },
    {
        let ghost w = words_view(parts@);
        assert(forall|i: int| 0 <= i < parts@.len() ==> w[i] == (#[trigger] parts@[i])@);
        let account_id: usize = match self.account {
            Some(id) => id,
            None => {
                return Err("Not logged in. Use :login <account_id> first".to_owned());
            },
        };
        if limit && parts.len() < 5 {
            return Err("Usage: make <src_token> <dst_token> <volume> <price>".to_owned());
        }
        if parts.len() < 4 {
            return Err("Usage: swap <src_token> <dst_token> <volume>".to_owned());
        }
        let src_name = text_of(&parts[1]);
        let dst_name = text_of(&parts[2]);
        let src: usize = match engine.get_token_by_name(src_name.as_str()) {
            Some(id) => id,
            None => {
                return Err(joined("Token not found: ", &src_name));
            },
        };
        let dst: usize = match engine.get_token_by_name(dst_name.as_str()) {
            Some(id) => id,
            None => {
                return Err(joined("Token not found: ", &dst_name));
            },
        };
        let volume = match parse_vol(&parts[3], engine, account_id, src) {
            Ok(v) => v,
            Err(e) => {
                return Err(e);
            },
        };
        let price = if limit {
            match Decimal::parse(text_of(&parts[4]).as_str()) {
                Some(v) => v,
                None => {
                    return Err("Invalid price".to_owned());
                },
            }
        } else {
            Decimal::zero()
        };
        if !engine.is_swap_allowed(src, dst) {
            let mut msg = joined("Trade not allowed: ", &src_name);
            msg.push_str(" ↔ ");
            msg.push_str(dst_name.as_str());
            msg.push_str(" (whitelist restriction)");
            return Err(msg);
        }
        Ok((account_id, src, dst, volume, price))
    }

    /// Opens a limit order.
    fn make<L: ContractLogic>(&mut self, parts: &Vec<Vec<char>>, engine: &mut Rpte<L>)
        ensures
            (final(self)@, final(engine)@) == old(self)@.made(words_view(parts@), old(engine)@),
            old(self)@.wf() ==> final(self)@.wf(),
    {
        let ghost w = words_view(parts@);
        assert(forall|i: int| 0 <= i < parts@.len() ==> w[i] == (#[trigger] parts@[i])@);
        match self.asked(parts, engine, true) {
            Ok((account_id, src, dst, volume, price)) => {
                engine.make(account_id, src, dst, volume, price);
                let mut msg = joined("Limit order placed: account #", &number(account_id));
                msg.push_str(" ");
                msg.push_str(text_of(&parts[1]).as_str());
                msg.push_str("→");
                msg.push_str(text_of(&parts[2]).as_str());
                msg.push_str(" vol=");
                msg.push_str(volume.text().as_str());
                msg.push_str(" price=");
                msg.push_str(price.text().as_str());
                self.msg = msg;
            },
            Err(msg) => {
                self.msg = msg;
            },
        }
    }

    /// Trades at the market's price.
    fn swap<L: ContractLogic>(&mut self, parts: &Vec<Vec<char>>, engine: &mut Rpte<L>)
        ensures
            (final(self)@, final(engine)@) == old(self)@.swapped(words_view(parts@), old(engine)@),
            old(self)@.wf() ==> final(self)@.wf(),
    {
        let ghost w = words_view(parts@);
        assert(forall|i: int| 0 <= i < parts@.len() ==> w[i] == (#[trigger] parts@[i])@);
        match self.asked(parts, engine, false) {
            Ok((account_id, src, dst, volume, _)) => {
                engine.swap(account_id, src, dst, volume);
                let mut msg = joined("Market order placed: account #", &number(account_id));
                msg.push_str(" ");
                msg.push_str(text_of(&parts[1]).as_str());
                msg.push_str("→");
                msg.push_str(text_of(&parts[2]).as_str());
                msg.push_str(" vol=");
                msg.push_str(volume.text().as_str());
                self.msg = msg;
            },
            Err(msg) => {
                self.msg = msg;
            },
        }
    }

    /// Does what a command says.
    pub fn execute_cmd<L: ContractLogic>(&mut self, cmd: &Vec<char>, engine: &mut Rpte<L>)
        ensures
            (final(self)@, final(engine)@) == old(self)@.executed(cmd@, old(engine)@),
            old(self)@.wf() ==> final(self)@.wf(),
    {
        let parts = split_words(cmd);
        if parts.len() == 0 {
            return;
        }
        let ghost w = words(cmd@);
        assert(w[0] == parts@[0]@);
        let name = &parts[0];
        if same_text(name, "pairs") || same_text(name, "p") {
            self.switch_view(Screen::Pairs);
            self.set_msg("Switched to pairs list");
        } else if same_text(name, "kline") || same_text(name, "k") {
            self.show_kline(&parts, engine);
        } else if same_text(name, "login") || same_text(name, "l") {
            self.log_in(&parts);
        } else if same_text(name, "bal") || same_text(name, "b") {
            self.show_account(Screen::Balance, "Showing balances");
        } else if same_text(name, "orders") || same_text(name, "o") {
            self.show_account(Screen::Orders, "Showing orders");
        } else if same_text(name, "make") || same_text(name, "m") {
            self.make(&parts, engine);
        } else if same_text(name, "swap") || same_text(name, "s") {
            self.swap(&parts, engine);
        } else if same_text(name, "q") || same_text(name, "quit") {
            self.quit = true;
        } else if same_text(name, "help") || same_text(name, "h") || same_text(name, "?") {
            self.switch_view(Screen::Help);
            self.set_msg("");
        } else {
            let mut msg = joined("Unknown command: ", &text_of(name));
            msg.push_str(". Type :help");
            self.msg = msg;
        }
    }

    // ---- keys ----

    /// Does what the command that was typed says.
    fn enter<L: ContractLogic>(&mut self, engine: &mut Rpte<L>)
        requires
            old(self)@.wf(),
        ensures
            (final(self)@, final(engine)@) == old(self)@.entered(old(engine)@),
            final(self)@.wf(),
    {
        let cmd = trim(&self.line);
        self.typing = false;
        if cmd.len() > 0 {
            self.push_history(&cmd);
            self.execute_cmd(&cmd, engine);
        }
        self.command_index = None;
        self.line = Vec::new();
        self.cursor = 0;
        assert(self.line@ =~= Seq::empty());
    }

    /// Takes a key while a command is being typed.
    pub fn handle_cmd_input<L: ContractLogic>(&mut self, key: Key, engine: &mut Rpte<L>)
        requires
            old(self)@.wf(),
            old(self)@.typing,
            key is Char ==> old(self)@.line.len() < usize::MAX,
        ensures
            (final(self)@, final(engine)@) == old(self)@.pressed(key, old(engine)@),
            final(self)@.wf(),
    {
        match key {
            Key::Enter => {
                self.enter(engine);
            },
            Key::Esc => {
                self.typing = false;
                self.line = Vec::new();
                self.cursor = 0;
                self.command_index = None;
            },
            Key::Up => {
                self.history_back();
            },
            Key::Down => {
                self.history_forward();
            },
            Key::Char(c) => {
                self.command_index = None;
                self.line.insert(self.cursor, c);
                self.cursor = self.cursor + 1;
            },
            Key::Backspace => {
                if self.cursor > 0 {
                    self.cursor = self.cursor - 1;
                    self.line.remove(self.cursor);
                }
            },
            Key::Delete => {
                if self.cursor < self.line.len() {
                    self.line.remove(self.cursor);
                }
            },
            Key::Left => {
                if self.cursor > 0 {
                    self.cursor = self.cursor - 1;
                }
            },
            Key::Right => {
                if self.cursor < self.line.len() {
                    self.cursor = self.cursor + 1;
                }
            },
            Key::Home => {
                self.cursor = 0;
            },
            Key::End => {
                self.cursor = self.line.len();
            },
            Key::Other => {},
        }
    }

    /// Takes a key. Returns whether it leaves the console.
    pub fn handle_key<L: ContractLogic>(&mut self, key: Key, engine: &mut Rpte<L>) -> (r: bool)
        requires
            old(self)@.wf(),
            key is Char ==> old(self)@.line.len() < usize::MAX,
        ensures
            (final(self)@, final(engine)@) == old(self)@.pressed(key, old(engine)@),
            r == old(self)@.leaves(key),
            final(self)@.wf(),
    {
        if self.typing {
            self.handle_cmd_input(key, engine);
            return false;
        }
        match key {
            Key::Char(c) => {
                if c == ':' {
                    self.typing = true;
                    self.line = Vec::new();
                    self.cursor = 0;
                }
                c == 'q'
            },
            Key::Up => {
                self.typing = true;
                self.history_back();
                false
            },
            Key::Down => {
                self.typing = true;
                self.history_forward();
                false
            },
            Key::Left => {
                if self.view_history_back() {
                    self.set_msg("");
                }
                false
            },
            Key::Right => {
                if self.view_history_forward() {
                    self.set_msg("");
                }
                false
            },
            Key::Esc => true,
            _ => false,
        }
    }

    // ---- reading the engine ----

    /// What an account holds of each token. `None` where a number overflows.
    fn read_balances<L: ContractLogic>(engine: &Rpte<L>, account_id: usize) -> (r: Option<
        Vec<BalanceRow>,
    >)
        ensures
            match ConsoleV::holdings(engine@, account_id, engine@.ledger.tokens.len()) {
                Some(rows) => r is Some && rows_view((r->0)@) == rows,
                None => r is None,
            },
    {
        let tokens = engine.get_all_tokens();
        let quote_token = engine.get_global_quote_token();
        let mut rows: Vec<BalanceRow> = Vec::new();
        let mut i: usize = 0;
        assert(rows_view(rows@) =~= Seq::empty());
        while i < tokens.len()
            invariant
                i <= tokens@.len(),
                tokens@ == engine@.ledger.tokens.map_values(|t: (usize, Seq<char>)| t.0),
                quote_token == engine@.ledger.quote,
                ConsoleV::holdings(engine@, account_id, i as nat) == Some(rows_view(rows@)),
            decreases tokens@.len() - i,
        {
            let token = tokens[i];
            let ghost before = rows_view(rows@);
            let equity = match engine.get_account_equity_token(account_id, token) {
                Ok(v) => v,
                Err(Error::Overflow) => {
                    proof {
                        lemma_holdings_none(engine@, account_id, (i + 1) as nat);
                    }
                    return None;
                },
                Err(_) => Decimal::zero(),
            };
            if !equity.is_zero() {
                let available = match engine.get_node_balance(account_id, token) {
                    Ok(v) => v,
                    Err(_) => Decimal::zero(),
                };
                let name = name_of(engine, token);
                let converted = if token == quote_token {
                    equity
                } else {
                    match engine.convert_value(token, quote_token, equity) {
                        Some(v) => v,
                        None => {
                            proof {
                                lemma_holdings_none(engine@, account_id, (i + 1) as nat);
                            }
                            return None;
                        },
                    }
                };
                let row = BalanceRow { name, available, equity, converted };
                rows.push(row);
                assert(rows_view(rows@) =~= before.push(row@));
            }
            i = i + 1;
        }
        Some(rows)
    }

    /// Reads the candles of a pair, which is made where there is none. `None` where a number
    /// overflows.
    fn read_candles<L: ContractLogic>(&mut self, src: usize, dst: usize, engine: &mut Rpte<L>) -> (r:
        Option<()>)
        ensures
            match old(self)@.candles_read(src, dst, old(engine)@) {
                Some((c, e)) => r is Some && final(self)@ == c && final(engine)@ == e,
                None => r is None,
            },
            r is Some && old(self)@.wf() ==> final(self)@.wf(),
    {
        let ghost before = engine@;
        match engine.get_candle_data(src, dst, self.interval) {
            Ok(candles) => {
                let ghost all = candles@;
                proof {
                    engine.lemma_ids_suffice();
                    law_pair_found_again(before.ledger, src, dst);
                }
                let price = match engine.get_current_price(src, dst) {
                    Ok(price) => Some(price),
                    Err(_) => None,
                };
                let live_candle = match engine.latest_candle(src, dst, self.interval) {
                    Ok(candle) => candle,
                    Err(_) => {
                        return None;
                    },
                };
                let mut candles = candles;
                assert(all.subrange(0, all.len() as int) =~= all);
                while candles.len() > self.max_candles
                    invariant
                        candles@.len() <= all.len(),
                        candles@ == all.subrange(all.len() - candles@.len(), all.len() as int),
                        all.len() > self.max_candles ==> candles@.len() >= self.max_candles,
                        all.len() <= self.max_candles ==> candles@.len() == all.len(),
                    decreases candles@.len(),
                {
                    let ghost count = candles@.len() as int;
                    candles.pop_front();
                    assert(candles@ =~= all.subrange(all.len() - count + 1, all.len() as int));
                }
                assert(candles@ == latest(all, self.max_candles));
                self.candles = candles;
                self.current_price = price;
                self.live_candle = live_candle;
                Some(())
            },
            Err(Error::Overflow) => None,
            Err(_) => {
                self.candles = VecDeque::new();
                self.current_price = None;
                self.live_candle = None;
                assert(self.candles@ =~= Seq::empty());
                Some(())
            },
        }
    }

    /// Reads what is shown. `None` where a number overflows.
    pub fn refresh_caches<L: ContractLogic>(&mut self, engine: &mut Rpte<L>) -> (r: Option<()>)
        ensures
            match old(self)@.refreshed(old(engine)@) {
                Some((c, e)) => r is Some && final(self)@ == c && final(engine)@ == e,
                None => r is None,
            },
            r is Some && old(self)@.wf() ==> final(self)@.wf(),
    {
        if self.refresh_count == u64::MAX {
            return None;
        }
        self.refresh_count = self.refresh_count + 1;
        let interval: u64 = if self.refresh_interval == 0 {
            1
        } else {
            self.refresh_interval
        };
        if self.refresh_count % interval == 0 {
            self.pairs = engine.get_all_pairs_info();
            if let Some(account_id) = self.account {
                match Self::read_balances(engine, account_id) {
                    Some(rows) => {
                        self.balances = rows;
                    },
                    None => {
                        return None;
                    },
                }
            }
        }
        if let Screen::Kline { src, dst } = self.screen {
            return self.read_candles(src, dst, engine);
        }
        Some(())
    }
}

/// Where reading what an account holds overflows, reading more does.
proof fn lemma_holdings_none<L>(r: RpteV<L>, account: usize, k: nat)
    requires
        k <= r.ledger.tokens.len(),
        ConsoleV::holdings(r, account, k) is None,
    ensures
        ConsoleV::holdings(r, account, r.ledger.tokens.len()) is None,
    decreases r.ledger.tokens.len() - k,
{
    if k < r.ledger.tokens.len() {
        lemma_holdings_none(r, account, k + 1);
    }
}

} // verus!
