//! The screens of the console, line by line.

use crate::console::{name_of, rows_view, BalanceRow, Console};
use crate::console_model::{name_or_mark, BalanceV, ConsoleV, Screen};
use crate::contract::ContractLogic;
use crate::decimal::{decimal_fixed, decimal_sum, Decimal};
use crate::ledger_model::LedgerV;
use crate::node::Drt;
use crate::order::OrderBrief;
use crate::rpte::Rpte;
use crate::rpte_model::RpteV;
use crate::text::{
    align_left, align_right, concat, digits, left_aligned, number, repeat, repeated, right_aligned,
};
use vstd::prelude::*;

verus! {

/// The colour of a piece of text.
#[derive(Clone, Copy, Debug, PartialEq, Eq, Structural)]
pub enum Tone {
    Plain,
    White,
    Green,
    Red,
    Yellow,
    Cyan,
    DarkGray,
    /// Yellow and bold.
    Heading,
    /// Cyan and bold.
    Total,
}

/// A piece of text in one colour.
pub struct Piece {
    pub text: String,
    pub tone: Tone,
}

/// A piece of text in one colour.
#[verifier::ext_equal]
pub struct PieceV {
    pub text: Seq<char>,
    pub tone: Tone,
}

impl View for Piece {
    type V = PieceV;

    open spec fn view(&self) -> PieceV {
        PieceV { text: self.text@, tone: self.tone }
    }
}

/// What pieces are.
pub open spec fn line_view(line: Seq<Piece>) -> Seq<PieceV> {
    line.map_values(|p: Piece| p@)
}

/// What lines are.
pub open spec fn lines_view(lines: Seq<Vec<Piece>>) -> Seq<Seq<PieceV>> {
    lines.map_values(|l: Vec<Piece>| line_view(l@))
}

/// A screen: the title of its frame, if it has one, and its lines.
pub struct Page {
    pub title: Option<String>,
    pub lines: Vec<Vec<Piece>>,
}

/// A screen: the title of its frame, if it has one, and its lines.
#[verifier::ext_equal]
pub struct PageV {
    pub title: Option<Seq<char>>,
    pub lines: Seq<Seq<PieceV>>,
}

impl View for Page {
    type V = PageV;

    open spec fn view(&self) -> PageV {
        PageV {
            title: match self.title {
                Some(t) => Some(t@),
                None => None,
            },
            lines: lines_view(self.lines@),
        }
    }
}

// ---- what the screens are ----

pub open spec fn piece(text: Seq<char>, tone: Tone) -> PieceV {
    PieceV { text, tone }
}

/// A line across the screen.
pub open spec fn rule(width: usize) -> Seq<PieceV> {
    seq![piece(repeated('─', width as nat), Tone::DarkGray)]
}

/// A number in a column of the engine's precision.
pub open spec fn figure(d: Decimal, precision: u8, width: nat) -> Seq<char> {
    left_aligned(decimal_fixed(d, precision), width)
}

/// The line of a pair, or `None` where its price is too long to be written.
pub open spec fn pair_line<L>(r: RpteV<L>, p: (usize, usize, usize, Decimal)) -> Option<
    Seq<PieceV>,
> {
    let precision = r.ledger.precision;
    if !p.3.fixed_fits(precision) {
        None
    } else {
        Some(
            seq![
                piece(left_aligned(digits(p.0 as nat), 5) + " "@, Tone::White),
                piece(left_aligned(name_or_mark(r, p.1), 10), Tone::Green),
                piece("  "@, Tone::Plain),
                piece(left_aligned(name_or_mark(r, p.2), 10), Tone::Green),
                piece(
                    "  "@ + right_aligned(decimal_fixed(p.3, precision), 16),
                    Tone::Yellow,
                ),
            ],
        )
    }
}

/// The lines of the first `k` pairs.
pub open spec fn pair_lines<L>(
    r: RpteV<L>,
    pairs: Seq<(usize, usize, usize, Decimal)>,
    k: nat,
) -> Option<Seq<Seq<PieceV>>>
    decreases k,
{
    if k == 0 {
        Some(Seq::empty())
    } else {
        match (pair_lines(r, pairs, (k - 1) as nat), pair_line(r, pairs[k - 1])) {
            (Some(lines), Some(line)) => Some(lines.push(line)),
            _ => None,
        }
    }
}

/// The line of what is held of a token, or `None` where a number is too long to be written.
pub open spec fn balance_line(precision: u8, b: BalanceV) -> Option<Seq<PieceV>> {
    if !b.available.fixed_fits(precision) || !b.equity.fixed_fits(precision)
        || !b.converted.fixed_fits(precision) {
        None
    } else {
        Some(
            seq![
                piece(left_aligned(b.name, 16), Tone::Green),
                piece(figure(b.available, precision, 18), Tone::White),
                piece(figure(b.equity, precision, 18), Tone::Yellow),
                piece(figure(b.converted, precision, 18), Tone::Cyan),
            ],
        )
    }
}

/// The lines of the first `k` balances.
pub open spec fn balance_lines(precision: u8, balances: Seq<BalanceV>, k: nat) -> Option<
    Seq<Seq<PieceV>>,
>
    decreases k,
{
    if k == 0 {
        Some(Seq::empty())
    } else {
        match (
            balance_lines(precision, balances, (k - 1) as nat),
            balance_line(precision, balances[k - 1]),
        ) {
            (Some(lines), Some(line)) => Some(lines.push(line)),
            _ => None,
        }
    }
}

/// What the first `k` balances are worth in the quote token, or `None` where the sum overflows.
pub open spec fn converted_total(balances: Seq<BalanceV>, k: nat) -> Option<Decimal>
    decreases k,
{
    if k == 0 {
        Some(Decimal::of(0, 0))
    } else {
        match converted_total(balances, (k - 1) as nat) {
            Some(total) => decimal_sum(total, balances[k - 1].converted),
            None => None,
        }
    }
}

/// The line of an order, or `None` where a number is too long to be written.
pub open spec fn order_line<L>(r: RpteV<L>, b: OrderBrief) -> Option<Seq<PieceV>> {
    let precision = r.ledger.precision;
    if !b.src_volume.fixed_fits(precision) || !b.price.fixed_fits(precision) {
        None
    } else {
        let (side, tone) = match b.direction {
            Drt::Buy => ("BUY "@, Tone::Green),
            Drt::Sell => ("SELL"@, Tone::Red),
        };
        Some(
            seq![
                piece(left_aligned(digits(b.id as nat), 5) + " "@, Tone::White),
                piece(left_aligned(side, 6) + " "@, tone),
                piece(
                    left_aligned(
                        name_or_mark(r, b.src_token) + "/"@ + name_or_mark(r, b.dst_token),
                        18,
                    ) + " "@,
                    Tone::Green,
                ),
                piece(figure(b.src_volume, precision, 16) + " "@, Tone::Yellow),
                piece(decimal_fixed(b.price, precision), Tone::Yellow),
            ],
        )
    }
}

/// The lines of the first `k` orders, without those that are not open.
pub open spec fn order_lines<L>(r: RpteV<L>, orders: Seq<usize>, k: nat) -> Option<
    Seq<Seq<PieceV>>,
>
    decreases k,
{
    if k == 0 {
        Some(Seq::empty())
    } else {
        match order_lines(r, orders, (k - 1) as nat) {
            Some(lines) => match r.ledger.order_brief(orders[k - 1]) {
                Ok(brief) => match order_line(r, brief) {
                    Some(line) => Some(lines.push(line)),
                    None => None,
                },
                Err(_) => Some(lines),
            },
            None => None,
        }
    }
}

/// A line of the screen that lists the commands: a command and what it does.
pub open spec fn help_entry(command: Seq<char>, meaning: Seq<char>) -> Seq<PieceV> {
    seq![piece(command, Tone::Green), piece(meaning, Tone::White)]
}

/// The screen that lists the commands.
pub open spec fn help_lines() -> Seq<Seq<PieceV>> {
    seq![
        seq![piece("First bind an account, then operate:"@, Tone::Heading)],
        seq![piece(""@, Tone::Plain)],
        help_entry("  login <id>          "@, "Bind to an account (required first)"@),
        seq![piece(""@, Tone::Plain)],
        seq![piece("Views:"@, Tone::Heading)],
        seq![piece(""@, Tone::Plain)],
        help_entry("  pairs               "@, "List all trading pairs"@),
        help_entry("  kline <Q> <B>       "@, "Show K-line chart (or :k <pair_id>)"@),
        help_entry("  bal                 "@, "Show balances of logged-in account"@),
        help_entry("  orders              "@, "Show open orders of logged-in account"@),
        seq![piece(""@, Tone::Plain)],
        seq![piece("Trading:"@, Tone::Heading)],
        seq![piece(""@, Tone::Plain)],
        help_entry("  make <Q> <B> <vol>  "@, "<price>"@),
        help_entry("                      "@, "Place a limit order for logged-in account"@),
        help_entry("  swap <Q> <B> <vol>  "@, "Place a market order for logged-in account"@),
        seq![piece(""@, Tone::Plain)],
        seq![piece("Key shortcuts:"@, Tone::Heading)],
        seq![piece("  :        Enter command mode"@, Tone::Plain)],
        seq![piece("  Enter    Execute command"@, Tone::Plain)],
        seq![piece("  Esc      Cancel / exit command mode"@, Tone::Plain)],
        seq![piece("  q        Quit"@, Tone::Plain)],
    ]
}

/// A screen without a frame that says that nobody is logged in.
pub open spec fn login_page() -> PageV {
    PageV {
        title: None,
        lines: seq![seq![piece("Not logged in. Use :login <account_id>"@, Tone::Red)]],
    }
}

impl ConsoleV {
    /// The screen of all pairs.
    pub open spec fn pairs_page<L>(self, r: RpteV<L>, width: usize) -> Option<PageV> {
        let title = Some("Trading Pairs  ("@ + digits(self.pairs.len()) + ")"@);
        if self.pairs.len() == 0 {
            Some(
                PageV {
                    title,
                    lines: seq![
                        seq![
                            piece(
                                "No trading pairs yet. Place an order to create one."@,
                                Tone::DarkGray,
                            ),
                        ],
                    ],
                },
            )
        } else {
            match pair_lines(r, self.pairs, self.pairs.len()) {
                Some(lines) => Some(
                    PageV {
                        title,
                        lines: seq![
                            seq![
                                piece("ID    "@, Tone::Heading),
                                piece("Quote      "@, Tone::Heading),
                                piece("Base      "@, Tone::Heading),
                                piece("            Price"@, Tone::Heading),
                            ],
                            rule(width),
                        ] + lines,
                    },
                ),
                None => None,
            }
        }
    }

    /// The volume of the candle before the last one, or of the only one.
    pub open spec fn previous_volume(self) -> Option<Decimal> {
        let n = self.candles.len();
        if n >= 2 {
            Some(self.candles[n - 2].volume)
        } else if n == 1 {
            Some(self.candles[0].volume)
        } else {
            None
        }
    }

    /// A number, or a dash where there is none. `None` where it is too long to be written.
    pub open spec fn figure_or_dash(v: Option<Decimal>, precision: u8) -> Option<Seq<char>> {
        match v {
            Some(d) => if d.fixed_fits(precision) {
                Some(decimal_fixed(d, precision))
            } else {
                None
            },
            None => Some("—"@),
        }
    }

    /// The screen of the candles of a pair, which has a title only.
    pub open spec fn kline_page<L>(self, r: RpteV<L>, src: usize, dst: usize) -> Option<PageV> {
        let price = Self::figure_or_dash(
            match self.current_price {
                Some((p, _, _)) => Some(p),
                None => None,
            },
            r.ledger.precision,
        );
        let volume = Self::figure_or_dash(self.previous_volume(), r.ledger.precision);
        match (price, volume) {
            (Some(price), Some(volume)) => Some(
                PageV {
                    title: Some(
                        name_or_mark(r, src) + ":"@ + name_or_mark(r, dst) + "  Price: "@ + price
                            + "  Prev Vol: "@ + volume + "   [←→] views  [:] cmd"@,
                    ),
                    lines: Seq::empty(),
                },
            ),
            _ => None,
        }
    }

    /// The lines of what the account holds, and of their total, where there is one.
    pub open spec fn balance_body<L>(self, r: RpteV<L>, width: usize) -> Option<Seq<Seq<PieceV>>> {
        let precision = r.ledger.precision;
        let lines = balance_lines(precision, self.balances, self.balances.len());
        let total = converted_total(self.balances, self.balances.len());
        if lines is None || total is None {
            None
        } else if (total->0).val() == 0 {
            Some(lines->0)
        } else if !(total->0).fixed_fits(precision) {
            None
        } else {
            Some(
                (lines->0).push(rule(width)).push(
                    seq![
                        piece(
                            "Total ("@ + name_or_mark(r, r.ledger.quote) + ")"@,
                            Tone::Total,
                        ),
                        piece(decimal_fixed(total->0, precision), Tone::Total),
                    ],
                ),
            )
        }
    }

    /// The screen of what the account holds.
    pub open spec fn balance_page<L>(self, r: RpteV<L>, width: usize) -> Option<PageV> {
        match self.account {
            None => Some(login_page()),
            Some(id) => {
                let title = Some("Account #"@ + digits(id as nat) + " — Balances"@);
                if self.balances.len() == 0 {
                    Some(
                        PageV { title, lines: seq![seq![piece("Loading…"@, Tone::DarkGray)]] },
                    )
                } else {
                    match self.balance_body(r, width) {
                        Some(lines) => Some(
                            PageV {
                                title,
                                lines: seq![
                                    seq![
                                        piece(
                                            "Token           Available           Equity            Converted"@,
                                            Tone::Heading,
                                        ),
                                    ],
                                    rule(width),
                                ] + lines,
                            },
                        ),
                        None => None,
                    }
                }
            },
        }
    }

    /// The screen of the account's open orders.
    pub open spec fn orders_page<L>(self, r: RpteV<L>, width: usize) -> Option<PageV> {
        match self.account {
            None => Some(login_page()),
            Some(id) => {
                let title = Some("Orders for Account #"@ + digits(id as nat));
                match r.ledger.account(id) {
                    Err(e) => Some(
                        PageV { title, lines: seq![seq![piece("Error: "@ + e.text(), Tone::Red)]] },
                    ),
                    Ok(set) => {
                        let orders = LedgerV::orders_among(set, r.ledger.nodes.len());
                        let head = seq![
                            seq![
                                piece(
                                    "ID    Dir     Pair                Volume            Price"@,
                                    Tone::Heading,
                                ),
                            ],
                            rule(width),
                        ];
                        if orders.len() == 0 {
                            Some(
                                PageV {
                                    title,
                                    lines: head.push(
                                        seq![piece("(no open orders)"@, Tone::DarkGray)],
                                    ),
                                },
                            )
                        } else {
                            match order_lines(r, orders, orders.len()) {
                                Some(lines) => Some(PageV { title, lines: head + lines }),
                                None => None,
                            }
                        }
                    },
                }
            },
        }
    }

    /// The screen that is shown. `None` where a number overflows or is too long to be written.
    pub open spec fn page<L>(self, r: RpteV<L>, width: usize) -> Option<PageV> {
        match self.screen {
            Screen::Pairs => self.pairs_page(r, width),
            Screen::Kline { src, dst } => self.kline_page(r, src, dst),
            Screen::Balance => self.balance_page(r, width),
            Screen::Orders => self.orders_page(r, width),
            Screen::Help => Some(PageV { title: Some("Help"@), lines: help_lines() }),
        }
    }

    /// The command as it is typed.
    pub open spec fn prompt(self) -> Seq<char> {
        if self.typing {
            ": "@ + self.line
        } else {
            "  "@ + self.line
        }
    }

    /// Which account the console acts for.
    pub open spec fn account_label(self) -> Seq<char> {
        match self.account {
            Some(id) => " acct #"@ + digits(id as nat) + " "@,
            None => " no login "@,
        }
    }
}

// ---- showing them ----

/// A piece of text in one colour.
fn new_piece(text: String, tone: Tone) -> (r: Piece)
    ensures
        r@ == piece(text@, tone),
{
    Piece { text, tone }
}

/// A line of one piece.
fn line_of(text: &str, tone: Tone) -> (r: Vec<Piece>)
    ensures
        line_view(r@) == seq![piece(text@, tone)],
{
    let mut r: Vec<Piece> = Vec::new();
    r.push(new_piece(text.to_owned(), tone));
    assert(line_view(r@) =~= seq![piece(text@, tone)]);
    r
}

/// A line of two pieces.
fn entry_of(command: &str, meaning: &str) -> (r: Vec<Piece>)
    ensures
        line_view(r@) == help_entry(command@, meaning@),
{
    let mut r: Vec<Piece> = Vec::new();
    r.push(new_piece(command.to_owned(), Tone::Green));
    r.push(new_piece(meaning.to_owned(), Tone::White));
    assert(line_view(r@) =~= help_entry(command@, meaning@));
    r
}

/// A line across the screen.
fn rule_of(width: usize) -> (r: Vec<Piece>)
    ensures
        line_view(r@) == rule(width),
{
    let text = repeat('─', width);
    line_of(text.as_str(), Tone::DarkGray)
}

/// Adds a line.
fn add_line(lines: &mut Vec<Vec<Piece>>, line: Vec<Piece>)
    ensures
        lines_view(final(lines)@) == lines_view(old(lines)@).push(line_view(line@)),
{
    lines.push(line);
    assert(lines_view(lines@) =~= lines_view(old(lines)@).push(line_view(line@)));
}

/// Lines to begin with.
fn no_lines() -> (r: Vec<Vec<Piece>>)
    ensures
        lines_view(r@) == Seq::<Seq<PieceV>>::empty(),
{
    let r: Vec<Vec<Piece>> = Vec::new();
    assert(lines_view(r@) =~= Seq::empty());
    r
}

/// A number at the left of a column.
fn figure_of(d: &Decimal, precision: u8, width: usize) -> (r: String)
    requires
        d.fixed_fits(precision),
    ensures
        r@ == figure(*d, precision, width as nat),
{
    align_left(d.fixed(precision).as_str(), width)
}

/// The line of a pair.
fn pair_line_of<L: ContractLogic>(engine: &Rpte<L>, p: &(usize, usize, usize, Decimal)) -> (r:
    Option<Vec<Piece>>)
    ensures
        match pair_line(engine@, *p) {
            Some(line) => r is Some && line_view((r->0)@) == line,
            None => r is None,
        },
{
    let precision = engine.get_precision();
    if !p.3.fits_fixed(precision) {
        return None;
    }
    let id = align_left(number(p.0).as_str(), 5);
    let quote = align_left(name_of(engine, p.1).as_str(), 10);
    let base = align_left(name_of(engine, p.2).as_str(), 10);
    let price = align_right(p.3.fixed(precision).as_str(), 16);
    let mut line: Vec<Piece> = Vec::new();
    line.push(new_piece(concat(id.as_str(), " "), Tone::White));
    line.push(new_piece(quote, Tone::Green));
    line.push(new_piece("  ".to_owned(), Tone::Plain));
    line.push(new_piece(base, Tone::Green));
    line.push(new_piece(concat("  ", price.as_str()), Tone::Yellow));
    assert(line_view(line@) =~= pair_line(engine@, *p)->0);
    Some(line)
}

/// The line of what is held of a token.
fn balance_line_of(precision: u8, row: &BalanceRow) -> (r: Option<Vec<Piece>>)
    ensures
        match balance_line(precision, row@) {
            Some(line) => r is Some && line_view((r->0)@) == line,
            None => r is None,
        },
{
    if !row.available.fits_fixed(precision) || !row.equity.fits_fixed(precision)
        || !row.converted.fits_fixed(precision) {
        return None;
    }
    let mut line: Vec<Piece> = Vec::new();
    line.push(new_piece(align_left(row.name.as_str(), 16), Tone::Green));
    line.push(new_piece(figure_of(&row.available, precision, 18), Tone::White));
    line.push(new_piece(figure_of(&row.equity, precision, 18), Tone::Yellow));
    line.push(new_piece(figure_of(&row.converted, precision, 18), Tone::Cyan));
    assert(line_view(line@) =~= balance_line(precision, row@)->0);
    Some(line)
}

/// The line of an order.
fn order_line_of<L: ContractLogic>(engine: &Rpte<L>, b: &OrderBrief) -> (r: Option<Vec<Piece>>)
    ensures
        match order_line(engine@, *b) {
            Some(line) => r is Some && line_view((r->0)@) == line,
            None => r is None,
        },
{
    let precision = engine.get_precision();
    if !b.src_volume.fits_fixed(precision) || !b.price.fits_fixed(precision) {
        return None;
    }
    let (side, tone) = match b.direction {
        Drt::Buy => ("BUY ", Tone::Green),
        Drt::Sell => ("SELL", Tone::Red),
    };
    let id = align_left(number(b.id).as_str(), 5);
    let side = align_left(side, 6);
    let pair = concat(name_of(engine, b.src_token).as_str(), "/");
    let pair = concat(pair.as_str(), name_of(engine, b.dst_token).as_str());
    let pair = align_left(pair.as_str(), 18);
    let volume = figure_of(&b.src_volume, precision, 16);
    let mut line: Vec<Piece> = Vec::new();
    line.push(new_piece(concat(id.as_str(), " "), Tone::White));
    line.push(new_piece(concat(side.as_str(), " "), tone));
    line.push(new_piece(concat(pair.as_str(), " "), Tone::Green));
    line.push(new_piece(concat(volume.as_str(), " "), Tone::Yellow));
    line.push(new_piece(b.price.fixed(precision), Tone::Yellow));
    assert(line_view(line@) =~= order_line(engine@, *b)->0);
    Some(line)
}

/// A number, or a dash where there is none.
fn figure_or_dash_of(v: Option<Decimal>, precision: u8) -> (r: Option<String>)
    ensures
        match ConsoleV::figure_or_dash(v, precision) {
            Some(text) => r is Some && (r->0)@ == text,
            None => r is None,
        },
{
    match v {
        Some(d) => if d.fits_fixed(precision) {
            Some(d.fixed(precision))
        } else {
            None
        },
        None => Some("—".to_owned()),
    }
}

/// A screen without a frame that says that nobody is logged in.
fn login_page_of() -> (r: Page)
    ensures
        r@ == login_page(),
{
    let mut lines = no_lines();
    add_line(&mut lines, line_of("Not logged in. Use :login <account_id>", Tone::Red));
    let r = Page { title: None, lines };
    assert(r@.lines =~= login_page().lines);
    r
}

/// The screen that lists the commands.
fn render_help() -> (r: Page)
    ensures
        r@ == (PageV { title: Some("Help"@), lines: help_lines() }),
{
    let mut lines = no_lines();
    add_line(&mut lines, line_of("First bind an account, then operate:", Tone::Heading));
    add_line(&mut lines, line_of("", Tone::Plain));
    add_line(
        &mut lines,
        entry_of("  login <id>          ", "Bind to an account (required first)"),
    );
    add_line(&mut lines, line_of("", Tone::Plain));
    add_line(&mut lines, line_of("Views:", Tone::Heading));
    add_line(&mut lines, line_of("", Tone::Plain));
    add_line(&mut lines, entry_of("  pairs               ", "List all trading pairs"));
    add_line(
        &mut lines,
        entry_of("  kline <Q> <B>       ", "Show K-line chart (or :k <pair_id>)"),
    );
    add_line(
        &mut lines,
        entry_of("  bal                 ", "Show balances of logged-in account"),
    );
    add_line(
        &mut lines,
        entry_of("  orders              ", "Show open orders of logged-in account"),
    );
    add_line(&mut lines, line_of("", Tone::Plain));
    add_line(&mut lines, line_of("Trading:", Tone::Heading));
    add_line(&mut lines, line_of("", Tone::Plain));
    add_line(&mut lines, entry_of("  make <Q> <B> <vol>  ", "<price>"));
    add_line(
        &mut lines,
        entry_of("                      ", "Place a limit order for logged-in account"),
    );
    add_line(
        &mut lines,
        entry_of("  swap <Q> <B> <vol>  ", "Place a market order for logged-in account"),
    );
    add_line(&mut lines, line_of("", Tone::Plain));
    add_line(&mut lines, line_of("Key shortcuts:", Tone::Heading));
    add_line(&mut lines, line_of("  :        Enter command mode", Tone::Plain));
    add_line(&mut lines, line_of("  Enter    Execute command", Tone::Plain));
    add_line(&mut lines, line_of("  Esc      Cancel / exit command mode", Tone::Plain));
    add_line(&mut lines, line_of("  q        Quit", Tone::Plain));
    let r = Page { title: Some("Help".to_owned()), lines };
    assert(r@.lines =~= help_lines());
    r
}

impl Console {
    /// The screen of all pairs.
    fn render_pairs<L: ContractLogic>(&self, engine: &Rpte<L>, width: usize) -> (r: Option<Page>)
        ensures
            match self@.pairs_page(engine@, width) {
                Some(page) => r is Some && (r->0)@ == page,
                None => r is None,
            },
    {
        let pairs = self.pairs();
        let title = concat(
            concat("Trading Pairs  (", number(pairs.len()).as_str()).as_str(),
            ")",
        );
        let mut lines = no_lines();
        if pairs.len() == 0 {
            add_line(
                &mut lines,
                line_of("No trading pairs yet. Place an order to create one.", Tone::DarkGray),
            );
            let r = Page { title: Some(title), lines };
            assert(r@.lines =~= (self@.pairs_page(engine@, width)->0).lines);
            return Some(r);
        }
        let mut head: Vec<Piece> = Vec::new();
        head.push(new_piece("ID    ".to_owned(), Tone::Heading));
        head.push(new_piece("Quote      ".to_owned(), Tone::Heading));
        head.push(new_piece("Base      ".to_owned(), Tone::Heading));
        head.push(new_piece("            Price".to_owned(), Tone::Heading));
        assert(line_view(head@) =~= seq![
            piece("ID    "@, Tone::Heading),
            piece("Quote      "@, Tone::Heading),
            piece("Base      "@, Tone::Heading),
            piece("            Price"@, Tone::Heading),
        ]);
        add_line(&mut lines, head);
        add_line(&mut lines, rule_of(width));
        let ghost first = lines_view(lines@);
        let ghost mut rows: Seq<Seq<PieceV>> = Seq::empty();
        let mut i: usize = 0;
        assert(first + rows =~= first);
        while i < pairs.len()
            invariant
                i <= pairs@.len(),
                pairs@ == self@.pairs,
                pair_lines(engine@, pairs@, i as nat) == Some(rows),
                lines_view(lines@) == first + rows,
            decreases pairs@.len() - i,
        {
            match pair_line_of(engine, &pairs[i]) {
                Some(line) => {
                    let ghost before = rows;
                    proof {
                        rows = rows.push(line_view(line@));
                    }
                    add_line(&mut lines, line);
                    assert(first + rows =~= (first + before).push(line_view(line@)));
                },
                None => {
                    proof {
                        lemma_pair_lines_none(engine@, pairs@, (i + 1) as nat);
                    }
                    return None;
                },
            }
            i = i + 1;
        }
        let r = Page { title: Some(title), lines };
        assert(r@.lines =~= (self@.pairs_page(engine@, width)->0).lines);
        Some(r)
    }

    /// The volume of the candle before the last one, or of the only one.
    fn volume_before(&self) -> (r: Option<Decimal>)
        ensures
            r == self@.previous_volume(),
    {
        let candles = self.candles();
        let n: usize = candles.len();
        if n >= 2 {
            Some(candles[n - 2].volume)
        } else if n == 1 {
            Some(candles[0].volume)
        } else {
            None
        }
    }

    /// The screen of the candles of a pair.
    fn render_kline<L: ContractLogic>(&self, engine: &Rpte<L>, src: usize, dst: usize) -> (r: Option<
        Page,
    >)
        ensures
            match self@.kline_page(engine@, src, dst) {
                Some(page) => r is Some && (r->0)@ == page,
                None => r is None,
            },
    {
        let precision = engine.get_precision();
        let price = match self.current_price() {
            Some((p, _, _)) => Some(p),
            None => None,
        };
        let price = match figure_or_dash_of(price, precision) {
            Some(text) => text,
            None => {
                return None;
            },
        };
        let volume = match figure_or_dash_of(self.volume_before(), precision) {
            Some(text) => text,
            None => {
                return None;
            },
        };
        let mut title = name_of(engine, src);
        title.push_str(":");
        title.push_str(name_of(engine, dst).as_str());
        title.push_str("  Price: ");
        title.push_str(price.as_str());
        title.push_str("  Prev Vol: ");
        title.push_str(volume.as_str());
        title.push_str("   [←→] views  [:] cmd");
        Some(Page { title: Some(title), lines: no_lines() })
    }

    /// What the account holds in all, in the quote token.
    fn total(&self) -> (r: Option<Decimal>)
        ensures
            r == converted_total(self@.balances, self@.balances.len()),
    {
        let rows = self.balances();
        let mut total = Decimal::zero();
        let mut i: usize = 0;
        while i < rows.len()
            invariant
                i <= rows@.len(),
                rows_view(rows@) == self@.balances,
                converted_total(self@.balances, i as nat) == Some(total),
            decreases rows@.len() - i,
        {
            assert(self@.balances[i as int] == rows@[i as int]@);
            match total.checked_add(rows[i].converted) {
                Some(sum) => {
                    total = sum;
                },
                None => {
                    proof {
                        lemma_total_none(self@.balances, (i + 1) as nat);
                    }
                    return None;
                },
            }
            i = i + 1;
        }
        Some(total)
    }

    /// Adds the lines of what the account holds. `None` where a number is too long to be written.
    fn add_balances(&self, precision: u8, lines: &mut Vec<Vec<Piece>>) -> (r: Option<()>)
        ensures
            match balance_lines(precision, self@.balances, self@.balances.len()) {
                Some(rows) => r is Some && lines_view(final(lines)@) == lines_view(old(lines)@)
                    + rows,
                None => r is None,
            },
    {
        let rows = self.balances();
        let ghost first = lines_view(lines@);
        let ghost mut shown: Seq<Seq<PieceV>> = Seq::empty();
        let mut i: usize = 0;
        assert(first + shown =~= first);
        while i < rows.len()
            invariant
                i <= rows@.len(),
                rows_view(rows@) == self@.balances,
                balance_lines(precision, self@.balances, i as nat) == Some(shown),
                first == lines_view(old(lines)@),
                lines_view(lines@) == first + shown,
            decreases rows@.len() - i,
        {
            assert(self@.balances[i as int] == rows@[i as int]@);
            match balance_line_of(precision, &rows[i]) {
                Some(line) => {
                    let ghost before = shown;
                    proof {
                        shown = shown.push(line_view(line@));
                    }
                    add_line(lines, line);
                    assert(first + shown =~= (first + before).push(line_view(line@)));
                },
                None => {
                    proof {
                        lemma_balance_lines_none(precision, self@.balances, (i + 1) as nat);
                    }
                    return None;
                },
            }
            i = i + 1;
        }
        Some(())
    }

    /// The screen of what the account holds.
    fn render_balance<L: ContractLogic>(&self, engine: &Rpte<L>, width: usize) -> (r: Option<Page>)
        ensures
            match self@.balance_page(engine@, width) {
                Some(page) => r is Some && (r->0)@ == page,
                None => r is None,
            },
    {
        let id: usize = match self.account() {
            Some(id) => id,
            None => {
                return Some(login_page_of());
            },
        };
        let title = concat(concat("Account #", number(id).as_str()).as_str(), " — Balances");
        let mut lines = no_lines();
        if self.balances().len() == 0 {
            add_line(&mut lines, line_of("Loading…", Tone::DarkGray));
            let r = Page { title: Some(title), lines };
            assert(r@.lines =~= (self@.balance_page(engine@, width)->0).lines);
            return Some(r);
        }
        add_line(
            &mut lines,
            line_of(
                "Token           Available           Equity            Converted",
                Tone::Heading,
            ),
        );
        add_line(&mut lines, rule_of(width));
        let ghost first = lines_view(lines@);
        let precision = engine.get_precision();
        if self.add_balances(precision, &mut lines).is_none() {
            return None;
        }
        let ghost rows = balance_lines(precision, self@.balances, self@.balances.len())->0;
        let total = match self.total() {
            Some(total) => total,
            None => {
                return None;
            },
        };
        if !total.is_zero() {
            if !total.fits_fixed(precision) {
                return None;
            }
            add_line(&mut lines, rule_of(width));
            let quote = name_of(engine, engine.get_global_quote_token());
            let mut line: Vec<Piece> = Vec::new();
            let label = concat(concat("Total (", quote.as_str()).as_str(), ")");
            line.push(new_piece(label, Tone::Total));
            line.push(new_piece(total.fixed(precision), Tone::Total));
            let ghost last = seq![
                piece("Total ("@ + name_or_mark(engine@, engine@.ledger.quote) + ")"@, Tone::Total),
                piece(decimal_fixed(total, precision), Tone::Total),
            ];
            assert(line_view(line@) =~= last);
            add_line(&mut lines, line);
            assert(lines_view(lines@) =~= first + rows.push(rule(width)).push(last));
        }
        let r = Page { title: Some(title), lines };
        assert(r@.lines =~= (self@.balance_page(engine@, width)->0).lines);
        Some(r)
    }

    /// The screen of the account's open orders.
    fn render_orders<L: ContractLogic>(&self, engine: &Rpte<L>, width: usize) -> (r: Option<Page>)
        ensures
            match self@.orders_page(engine@, width) {
                Some(page) => r is Some && (r->0)@ == page,
                None => r is None,
            },
    {
        let id: usize = match self.account() {
            Some(id) => id,
            None => {
                return Some(login_page_of());
            },
        };
        let title = concat("Orders for Account #", number(id).as_str());
        let mut lines = no_lines();
        let orders = match engine.list_account_orders(id) {
            Ok(orders) => orders,
            Err(e) => {
                let text = concat("Error: ", e.message().as_str());
                add_line(&mut lines, line_of(text.as_str(), Tone::Red));
                let r = Page { title: Some(title), lines };
                assert(r@.lines =~= (self@.orders_page(engine@, width)->0).lines);
                return Some(r);
            },
        };
        add_line(
            &mut lines,
            line_of("ID    Dir     Pair                Volume            Price", Tone::Heading),
        );
        add_line(&mut lines, rule_of(width));
        let ghost first = lines_view(lines@);
        if orders.len() == 0 {
            add_line(&mut lines, line_of("(no open orders)", Tone::DarkGray));
            let r = Page { title: Some(title), lines };
            assert(r@.lines =~= (self@.orders_page(engine@, width)->0).lines);
            return Some(r);
        }
        let ghost mut shown: Seq<Seq<PieceV>> = Seq::empty();
        let mut i: usize = 0;
        assert(first + shown =~= first);
        while i < orders.len()
            invariant
                i <= orders@.len(),
                order_lines(engine@, orders@, i as nat) == Some(shown),
                lines_view(lines@) == first + shown,
                self@.account == Some(id),
                engine@.ledger.account(id) is Ok,
                orders@.len() > 0,
                orders@ == LedgerV::orders_among(
                    engine@.ledger.account(id)->Ok_0,
                    engine@.ledger.nodes.len(),
                ),
            decreases orders@.len() - i,
        {
            if let Ok(brief) = engine.get_order_brief(orders[i]) {
                match order_line_of(engine, &brief) {
                    Some(line) => {
                        let ghost before = shown;
                        proof {
                            shown = shown.push(line_view(line@));
                        }
                        add_line(&mut lines, line);
                        assert(first + shown =~= (first + before).push(line_view(line@)));
                    },
                    None => {
                        proof {
                            lemma_order_lines_none(engine@, orders@, (i + 1) as nat);
                        }
                        return None;
                    },
                }
            }
            i = i + 1;
        }
        let r = Page { title: Some(title), lines };
        assert(r@.lines =~= (self@.orders_page(engine@, width)->0).lines);
        Some(r)
    }

    /// The screen that is shown. `None` where a number overflows or is too long to be written.
    pub fn render_content<L: ContractLogic>(&self, engine: &Rpte<L>, width: usize) -> (r: Option<Page>)
        ensures
            match self@.page(engine@, width) {
                Some(page) => r is Some && (r->0)@ == page,
                None => r is None,
            },
    {
        match self.screen() {
            Screen::Pairs => self.render_pairs(engine, width),
            Screen::Kline { src, dst } => self.render_kline(engine, src, dst),
            Screen::Balance => self.render_balance(engine, width),
            Screen::Orders => self.render_orders(engine, width),
            Screen::Help => Some(render_help()),
        }
    }

    /// The command as it is typed.
    pub fn prompt(&self) -> (r: String)
        ensures
            r@ == self@.prompt(),
    {
        if self.is_typing() {
            concat(": ", self.line().as_str())
        } else {
            concat("  ", self.line().as_str())
        }
    }

    /// Which account the console acts for.
    pub fn account_label(&self) -> (r: String)
        ensures
            r@ == self@.account_label(),
    {
        match self.account() {
            Some(id) => concat(concat(" acct #", number(id).as_str()).as_str(), " "),
            None => " no login ".to_owned(),
        }
    }
}

/// Where a line of the pairs cannot be written, more of them cannot.
proof fn lemma_pair_lines_none<L>(
    r: RpteV<L>,
    pairs: Seq<(usize, usize, usize, Decimal)>,
    k: nat,
)
    requires
        k <= pairs.len(),
        pair_lines(r, pairs, k) is None,
    ensures
        pair_lines(r, pairs, pairs.len()) is None,
    decreases pairs.len() - k,
{
    if k < pairs.len() {
        lemma_pair_lines_none(r, pairs, k + 1);
    }
}

/// Where a line of the balances cannot be written, more of them cannot.
proof fn lemma_balance_lines_none(precision: u8, balances: Seq<BalanceV>, k: nat)
    requires
        k <= balances.len(),
        balance_lines(precision, balances, k) is None,
    ensures
        balance_lines(precision, balances, balances.len()) is None,
    decreases balances.len() - k,
{
    if k < balances.len() {
        lemma_balance_lines_none(precision, balances, k + 1);
    }
}

/// Where a total overflows, that of more balances does.
proof fn lemma_total_none(balances: Seq<BalanceV>, k: nat)
    requires
        k <= balances.len(),
        converted_total(balances, k) is None,
    ensures
        converted_total(balances, balances.len()) is None,
    decreases balances.len() - k,
{
    if k < balances.len() {
        lemma_total_none(balances, k + 1);
    }
}

/// Where a line of the orders cannot be written, more of them cannot.
proof fn lemma_order_lines_none<L>(r: RpteV<L>, orders: Seq<usize>, k: nat)
    requires
        k <= orders.len(),
        order_lines(r, orders, k) is None,
    ensures
        order_lines(r, orders, orders.len()) is None,
    decreases orders.len() - k,
{
    if k < orders.len() {
        lemma_order_lines_none(r, orders, k + 1);
    }
}

} // verus!
