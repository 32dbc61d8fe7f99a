//! RPTE: a trading engine for simulations.
//!
//! Tokens, accounts, orders, pairs and contracts are nodes of one ledger. They act on each other
//! by messages only, which the engine collects and handles one frame at a time: transfers first,
//! then orders to close, then new orders and all else, until no message is left.
//!
//! Amounts are decimal numbers. Where one overflows, an operation says so (by `None` or by
//! [`Error::Overflow`]) and its contract says when.
//!
//! | Module | What it holds |
//! |--------|---------------|
//! | [`rpte`], [`rpte_model`] | the engine and what a frame does |
//! | [`ledger`], [`ledger_model`] | the nodes and what requests do to them |
//! | [`books`] | the ledger as the engine keeps it, its tokens in order |
//! | [`reader`] | what contracts can read |
//! | [`node`], [`any_node`] | what all nodes have, and messages |
//! | [`token`], [`account`], [`order`] | tokens, accounts and orders |
//! | [`pair`], [`pair_node`], [`matching`] | pairs and how they trade |
//! | [`virtual_pair`] | pairs whose counterparty is a contract |
//! | [`order_book`], [`trade_log`] | order books, trades and candles |
//! | [`fee`], [`fee_presets`] | fees |
//! | [`contract`], [`contract_presets`] | contracts, and a lending contract |
//! | [`route`] | routes over several pairs, and how to find them |
//! | [`oracle`] | a snapshot of prices and balances |
//! | [`console`], [`console_model`], [`screens`] | a console to look at the engine and to trade |
//! | [`decimal`], [`text`], [`error`] | numbers, text and errors |
//!
//! What holds of the whole, whatever is asked of it, is proved in:
//!
//! | Module | What it says |
//! |--------|--------------|
//! | [`price_laws`] | at what price, and how much, limit and market orders trade |
//! | [`share_laws`], [`batch_laws`] | how market orders of one side share what they meet |
//! | [`trading_laws`], [`settlement_laws`] | which orders trade, in what order, and what they spend |
//! | [`order_laws`], [`order_book_laws`] | what becomes of a request for an order, and books |
//! | [`virtual_laws`] | how pairs trade whose counterparty is a contract |
//! | [`payment_laws`], [`ledger_laws`] | what transfers, issues and fees move |
//! | [`value_laws`] | prices, what amounts are worth, and what accounts hold |
//! | [`pool_laws`], [`lending_laws`] | receipts, loans, interest and liquidation |
//! | [`trade_log_laws`] | what candles say of the trades |
//! | [`round_laws`], [`message_laws`] | how the messages of a frame are dealt with |
//! | [`contract_laws`] | what passes between a contract and its node |
//! | [`rpte_laws`], [`frame_laws`], [`conservation_laws`] | what a frame keeps |
//! | [`command_laws`], [`console_laws`] | what the console reads, asks for and shows |
//! | [`number_laws`] | how far computed numbers may be off |

pub mod account;
pub mod any_node;
pub mod batch_laws;
pub mod books;
pub mod command_laws;
pub mod conservation_laws;
pub mod console;
pub mod console_laws;
pub mod console_model;
pub mod contract;
pub mod contract_laws;
pub mod contract_presets;
pub mod decimal;
pub mod error;
pub mod fee;
pub mod fee_presets;
pub mod frame_laws;
pub mod ledger;
pub mod ledger_laws;
pub mod ledger_model;
pub mod lending_laws;
pub mod matching;
pub mod message_laws;
pub mod node;
pub mod number_laws;
pub mod oracle;
pub mod order;
pub mod order_book;
pub mod order_book_laws;
pub mod order_laws;
pub mod pair;
pub mod pair_node;
pub mod payment_laws;
pub mod pool_laws;
pub mod price_laws;
pub mod reader;
pub mod route;
pub mod round_laws;
pub mod rpte;
pub mod rpte_laws;
pub mod rpte_model;
pub mod screens;
pub mod settlement_laws;
pub mod share_laws;
pub mod text;
pub mod token;
pub mod trade_log;
pub mod trade_log_laws;
pub mod trading_laws;
pub mod value_laws;
pub mod virtual_laws;
pub mod virtual_pair;

pub use account::{Account, AccountNode};
pub use any_node::AnyNode;
pub use console::Console;
pub use console_model::{Key, Screen};
pub use contract::{Contract, ContractLogic, ContractNode};
pub use contract_presets::LendingPreset;
pub use decimal::{Amount, Decimal};
pub use error::Error;
pub use fee::{Fee, FeeCtx, FeeFn, FeeLogic};
pub use fee_presets::{empty_fee, taker_maker_fee, EmptyFee, TakerMakerFee};
pub use ledger::Ledger;
pub use node::{ContractState, Drt, Msg, Node, OrderBookDepth, SwapTransfer};
pub use oracle::Oracle;
pub use order::{Order, OrderBrief, OrderNode, OrderType};
pub use order_book::OrderBook;
pub use pair::Pair;
pub use pair_node::PairNode;
pub use reader::EngineReader;
pub use route::{Route, RouteHop};
pub use rpte::Rpte;
pub use token::{Token, TokenNode};
pub use trade_log::{CandleData, TraLog};
pub use virtual_pair::VirtualPair;
