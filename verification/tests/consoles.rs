use rpte::screens::{Page, Tone};
use rpte::{Console, Decimal, Key, Rpte, Screen};

fn d(num: i64, scale: u32) -> Decimal {
    Decimal::new(num, scale)
}

/// Types a command and sends it.
fn command(console: &mut Console, engine: &mut Rpte, text: &str) {
    assert!(!console.handle_key(Key::Char(':'), engine));
    for c in text.chars() {
        assert!(!console.handle_key(Key::Char(c), engine));
    }
    assert!(!console.handle_key(Key::Enter, engine));
}

fn setup() -> (Console, Rpte, usize) {
    let mut engine = Rpte::new("USDT", 4);
    engine.register_token("BTC");
    let alice = engine.register_account();
    engine.issue(alice, 0, 1000u64).unwrap();
    (Console::new(10, 3, 1), engine, alice)
}

/// The text of a line.
fn text(page: &Page, line: usize) -> String {
    page.lines[line].iter().map(|p| p.text.as_str()).collect()
}

#[test]
fn the_console_greets() {
    let mut console = Console::new(10, 3, 1);
    console.greet(None);
    assert_eq!(console.msg(), "Type :help for commands");
    console.greet(Some(4));
    assert_eq!(console.msg(), "Logged in as account #4  |  :help for commands");
    assert_eq!(console.account(), Some(4));
    assert_eq!(console.account_label(), " acct #4 ");
}

#[test]
fn commands_are_typed_and_edited() {
    let (mut console, mut engine, _) = setup();
    assert_eq!(console.prompt(), "  ");
    console.handle_key(Key::Char('x'), &mut engine);
    assert!(!console.is_typing());
    console.handle_key(Key::Char(':'), &mut engine);
    assert!(console.is_typing());
    for c in "paxirs".chars() {
        console.handle_key(Key::Char(c), &mut engine);
    }
    assert_eq!(console.prompt(), ": paxirs");
    for _ in 0..3 {
        console.handle_key(Key::Left, &mut engine);
    }
    console.handle_key(Key::Backspace, &mut engine);
    assert_eq!((console.line().as_str(), console.cursor()), ("pairs", 2));
    console.handle_key(Key::Home, &mut engine);
    console.handle_key(Key::Left, &mut engine);
    console.handle_key(Key::Backspace, &mut engine);
    console.handle_key(Key::Delete, &mut engine);
    assert_eq!((console.line().as_str(), console.cursor()), ("airs", 0));
    console.handle_key(Key::End, &mut engine);
    console.handle_key(Key::Right, &mut engine);
    console.handle_key(Key::Delete, &mut engine);
    console.handle_key(Key::Other, &mut engine);
    assert_eq!((console.line().as_str(), console.cursor()), ("airs", 4));
    console.handle_key(Key::Esc, &mut engine);
    assert!(!console.is_typing());
    assert_eq!(console.line(), "");
}

#[test]
fn a_character_outside_of_ascii_is_typed_and_taken_back() {
    let (mut console, mut engine, _) = setup();
    console.handle_key(Key::Char(':'), &mut engine);
    console.handle_key(Key::Char('é'), &mut engine);
    console.handle_key(Key::Char('b'), &mut engine);
    assert_eq!((console.line().as_str(), console.cursor()), ("éb", 2));
    console.handle_key(Key::Backspace, &mut engine);
    console.handle_key(Key::Backspace, &mut engine);
    assert_eq!((console.line().as_str(), console.cursor()), ("", 0));
}

#[test]
fn escape_leaves_the_console() {
    let (mut console, mut engine, _) = setup();
    assert!(console.handle_key(Key::Esc, &mut engine));
    assert!(!console.quit_requested());
    command(&mut console, &mut engine, "q");
    assert!(console.quit_requested());
}

#[test]
fn a_q_leaves_the_console_unless_it_is_typed() {
    let (mut console, mut engine, _) = setup();
    assert!(console.handle_key(Key::Char('q'), &mut engine));
    assert!(!console.handle_key(Key::Char('x'), &mut engine));
    assert!(!console.handle_key(Key::Char(':'), &mut engine));
    assert!(!console.handle_key(Key::Char('q'), &mut engine));
    assert_eq!(console.line().as_str(), "q");
}

#[test]
fn earlier_commands_are_recalled() {
    let (mut console, mut engine, _) = setup();
    command(&mut console, &mut engine, "help");
    command(&mut console, &mut engine, " pairs ");
    command(&mut console, &mut engine, "pairs");
    command(&mut console, &mut engine, "   ");
    console.handle_key(Key::Up, &mut engine);
    assert_eq!((console.line().as_str(), console.cursor()), ("pairs", 5));
    console.handle_key(Key::Up, &mut engine);
    assert_eq!(console.line(), "help");
    console.handle_key(Key::Up, &mut engine);
    assert_eq!(console.line(), "help");
    console.handle_key(Key::Down, &mut engine);
    assert_eq!(console.line(), "pairs");
    console.handle_key(Key::Down, &mut engine);
    assert_eq!(console.line(), "");
    console.handle_key(Key::Down, &mut engine);
    assert_eq!(console.line(), "");
}

#[test]
fn the_oldest_commands_are_forgotten() {
    let (mut console, mut engine, _) = setup();
    for i in 0..60 {
        command(&mut console, &mut engine, &format!("cmd{}", i));
    }
    for _ in 0..100 {
        console.handle_key(Key::Up, &mut engine);
    }
    assert_eq!(console.line(), "cmd10");
}

#[test]
fn screens_are_changed_and_gone_back_to() {
    let (mut console, mut engine, _) = setup();
    command(&mut console, &mut engine, "h");
    assert_eq!((console.screen(), console.msg()), (Screen::Help, ""));
    command(&mut console, &mut engine, "k USDT BTC");
    assert_eq!(console.screen(), Screen::Kline { src: 0, dst: 1 });
    assert_eq!(console.msg(), "Showing K-line: USDT/BTC");
    console.handle_key(Key::Left, &mut engine);
    assert_eq!((console.screen(), console.msg()), (Screen::Help, ""));
    console.handle_key(Key::Left, &mut engine);
    assert_eq!(console.screen(), Screen::Pairs);
    console.handle_key(Key::Left, &mut engine);
    assert_eq!(console.screen(), Screen::Pairs);
    console.handle_key(Key::Right, &mut engine);
    console.handle_key(Key::Right, &mut engine);
    assert_eq!(console.screen(), Screen::Kline { src: 0, dst: 1 });
    command(&mut console, &mut engine, "p");
    assert_eq!((console.screen(), console.msg()), (Screen::Pairs, "Switched to pairs list"));
}

#[test]
fn candles_are_asked_for_by_pair_or_by_tokens() {
    let (mut console, mut engine, _) = setup();
    let usage = "Usage: kline <pair_id>  or  kline <quote_token> <base_token>";
    command(&mut console, &mut engine, "kline");
    assert_eq!(console.msg(), usage);
    command(&mut console, &mut engine, "kline x");
    assert_eq!(console.msg(), usage);
    command(&mut console, &mut engine, "kline 77");
    assert_eq!(console.msg(), "Pair #77 not found");
    command(&mut console, &mut engine, "kline USDT DOGE");
    assert_eq!(console.msg(), "Token not found: DOGE");
    command(&mut console, &mut engine, "kline DOGE USDT");
    assert_eq!(console.msg(), "Token not found: DOGE");
    engine.get_current_price(0, 1).unwrap();
    command(&mut console, &mut engine, "kline +3");
    assert_eq!(console.msg(), "Showing K-line: USDT/BTC (#3)");
    assert_eq!(console.screen(), Screen::Kline { src: 0, dst: 1 });
}

#[test]
fn an_account_is_needed_to_trade() {
    let (mut console, mut engine, alice) = setup();
    for text in ["bal", "orders", "make USDT BTC 1 1", "swap USDT BTC 1"] {
        command(&mut console, &mut engine, text);
        assert_eq!(console.msg(), "Not logged in. Use :login <account_id> first");
    }
    command(&mut console, &mut engine, "login");
    assert_eq!(console.msg(), "Usage: login <account_id>");
    command(&mut console, &mut engine, "login -2");
    assert_eq!(console.msg(), "Invalid account ID (must be a number)");
    command(&mut console, &mut engine, "login 99999999999999999999");
    assert_eq!(console.msg(), "Invalid account ID (must be a number)");
    command(&mut console, &mut engine, &format!("l {}", alice));
    assert_eq!(console.msg(), "Logged in as account #2");
    command(&mut console, &mut engine, "b");
    assert_eq!((console.screen(), console.msg()), (Screen::Balance, "Showing balances"));
    command(&mut console, &mut engine, "o");
    assert_eq!((console.screen(), console.msg()), (Screen::Orders, "Showing orders"));
    engine.step().unwrap();
    assert!(engine.get_all_orders().is_empty());
}

#[test]
fn orders_are_placed() {
    let (mut console, mut engine, alice) = setup();
    console.greet(Some(alice));
    command(&mut console, &mut engine, "make USDT BTC 100.50 25");
    assert_eq!(
        console.msg(),
        "Limit order placed: account #2 USDT→BTC vol=100.50 price=25"
    );
    engine.step().unwrap();
    let orders = engine.list_account_orders(alice).unwrap();
    assert_eq!(orders.len(), 1);
    let brief = engine.get_order_brief(orders[0]).unwrap();
    assert_eq!((brief.src_volume, brief.price), (d(1005, 1), d(25, 0)));
    command(&mut console, &mut engine, "swap USDT BTC /4");
    assert_eq!(console.msg(), "Market order placed: account #2 USDT→BTC vol=250.00");
    let (mut other, mut idle, _) = setup();
    other.greet(Some(2));
    command(&mut other, &mut idle, "s USDT BTC /3");
    assert_eq!(other.msg(), "Market order placed: account #2 USDT→BTC vol=333.3333");
}

#[test]
fn orders_that_make_no_sense_are_refused() {
    let (mut console, mut engine, alice) = setup();
    console.greet(Some(alice));
    for (text, msg) in [
        ("make USDT BTC 1", "Usage: make <src_token> <dst_token> <volume> <price>"),
        ("swap USDT BTC", "Usage: swap <src_token> <dst_token> <volume>"),
        ("make DOGE BTC 1 1", "Token not found: DOGE"),
        ("swap USDT DOGE 1", "Token not found: DOGE"),
        ("make USDT BTC one 1", "Invalid volume: one"),
        ("make USDT BTC 1 one", "Invalid price"),
        ("swap USDT BTC /x", "Invalid fraction: /x"),
        ("swap USDT BTC /0", "Division by zero"),
        ("swap USDT USDT 1", "Trade not allowed: USDT ↔ USDT (whitelist restriction)"),
        ("frob 1", "Unknown command: frob. Type :help"),
    ] {
        command(&mut console, &mut engine, text);
        assert_eq!(console.msg(), msg);
    }
    console.greet(Some(55));
    command(&mut console, &mut engine, "swap USDT BTC /2");
    assert_eq!(console.msg(), "Equity query failed: node 55 not found (len=3)");
    engine.step().unwrap();
    assert!(engine.get_all_pairs().is_empty());
}

#[test]
fn what_is_shown_is_read_now_and_then() {
    let (_, mut engine, alice) = setup();
    let mut console = Console::new(10, 3, 2);
    console.greet(Some(alice));
    engine.get_current_price(0, 1).unwrap();
    console.refresh_caches(&mut engine).unwrap();
    assert!(console.pairs().is_empty());
    console.refresh_caches(&mut engine).unwrap();
    assert_eq!(console.pairs(), &vec![(3, 0, 1, Decimal::one())]);
    assert_eq!(console.balances().len(), 1);
    let row = &console.balances()[0];
    assert_eq!(row.name, "USDT");
    assert_eq!((row.available, row.equity, row.converted), (d(1000, 0), d(1000, 0), d(1000, 0)));
}

/// Trades one BTC for each of the given prices, a frame apart.
fn trade(engine: &mut Rpte, prices: &[i64]) {
    let seller = engine.register_account();
    let buyer = engine.register_account();
    engine.issue(seller, 1, 100u64).unwrap();
    engine.issue(buyer, 0, 100000u64).unwrap();
    for price in prices {
        engine.make(seller, 1, 0, 1u64, *price);
        engine.step().unwrap();
        engine.swap(buyer, 0, 1, *price);
        engine.step().unwrap();
        engine.step().unwrap();
    }
}

#[test]
fn the_last_candles_are_shown() {
    let (_, mut engine, _) = setup();
    let mut console = Console::new(1, 2, 1);
    trade(&mut engine, &[10, 20, 40]);
    command(&mut console, &mut engine, "kline USDT BTC");
    console.refresh_caches(&mut engine).unwrap();
    assert_eq!(console.candles().len(), 2);
    assert_eq!(console.candles()[0].close, d(20, 0));
    assert_eq!(console.candles()[1].close, d(40, 0));
    assert_eq!(console.live_candle().unwrap().close, d(40, 0));
    assert_eq!(console.current_price().unwrap().0, d(40, 0));
    let page = console.render_content(&engine, 40).unwrap();
    assert_eq!(
        page.title.unwrap(),
        "USDT:BTC  Price: 40.0000  Prev Vol: 1.0000   [←→] views  [:] cmd"
    );
    command(&mut console, &mut engine, "kline BTC BTC");
    console.refresh_caches(&mut engine).unwrap();
    assert!(console.candles().is_empty());
    let page = console.render_content(&engine, 40).unwrap();
    assert_eq!(page.title.unwrap(), "BTC:BTC  Price: —  Prev Vol: —   [←→] views  [:] cmd");
}

#[test]
fn pairs_are_listed() {
    let (mut console, mut engine, _) = setup();
    let page = console.render_content(&engine, 8).unwrap();
    assert_eq!(page.title.as_deref(), Some("Trading Pairs  (0)"));
    assert_eq!(text(&page, 0), "No trading pairs yet. Place an order to create one.");
    engine.get_current_price(0, 1).unwrap();
    console.refresh_caches(&mut engine).unwrap();
    let page = console.render_content(&engine, 8).unwrap();
    assert_eq!(page.title.as_deref(), Some("Trading Pairs  (1)"));
    assert_eq!(text(&page, 1), "────────");
    assert_eq!(text(&page, 2), "3     USDT        BTC                   1.0000");
    assert_eq!(page.lines[2][4].tone, Tone::Yellow);
}

#[test]
fn balances_are_listed_with_their_total() {
    let (mut console, mut engine, alice) = setup();
    console.greet(None);
    command(&mut console, &mut engine, "login 2");
    command(&mut console, &mut engine, "bal");
    let page = console.render_content(&engine, 4).unwrap();
    assert_eq!(page.title.as_deref(), Some("Account #2 — Balances"));
    assert_eq!(text(&page, 0), "Loading…");
    trade(&mut engine, &[10]);
    engine.issue(alice, 1, 2u64).unwrap();
    console.refresh_caches(&mut engine).unwrap();
    let page = console.render_content(&engine, 4).unwrap();
    assert_eq!(
        text(&page, 2),
        "USDT            1000.0000         1000.0000         1000.0000         "
    );
    assert_eq!(
        text(&page, 3),
        "BTC             2.0000            2.0000            20.0000           "
    );
    assert_eq!(text(&page, 4), "────");
    assert_eq!(text(&page, 5), "Total (USDT)1020.0000");
}

#[test]
fn open_orders_are_listed() {
    let (mut console, mut engine, alice) = setup();
    command(&mut console, &mut engine, "login 2");
    command(&mut console, &mut engine, "orders");
    let page = console.render_content(&engine, 3).unwrap();
    assert_eq!(page.title.as_deref(), Some("Orders for Account #2"));
    assert_eq!(text(&page, 2), "(no open orders)");
    engine.make(alice, 0, 1, 100u64, 25u64);
    engine.step().unwrap();
    let page = console.render_content(&engine, 3).unwrap();
    assert_eq!(text(&page, 1), "───");
    assert_eq!(text(&page, 2), "4     BUY    USDT/BTC           100.0000         25.0000");
    assert_eq!(page.lines[2][1].tone, Tone::Green);
    command(&mut console, &mut engine, "login 0");
    let page = console.render_content(&engine, 3).unwrap();
    assert_eq!(text(&page, 0), "Error: node 0 is not an AccountNode");
}

#[test]
fn the_commands_are_listed() {
    let (mut console, mut engine, _) = setup();
    command(&mut console, &mut engine, "?");
    let page = console.render_content(&engine, 40).unwrap();
    assert_eq!(page.title.as_deref(), Some("Help"));
    assert_eq!(page.lines.len(), 22);
    assert_eq!(text(&page, 2), "  login <id>          Bind to an account (required first)");
    assert_eq!(text(&page, 21), "  q        Quit");
}

#[test]
fn a_console_begins_without_an_account() {
    let console = Console::new(1, 1, 1);
    assert_eq!(console.account(), None);
    assert_eq!(console.account_label(), " no login ");
    assert_eq!(console.screen(), Screen::Pairs);
}
