use b_rs::config::{
    AutopilotCfg, BacktestCfg, Config, GoalCfg, MorganCfg, MultiCfg, NordnetCfg, NotifyCfg, RiskCfg,
    StrategyCfg, UnoXCfg,
};
use b_rs::engine::ordrer::{
    angre, antall, order_size, ordrelogg, ordrevarsel, ta_forfalte, transaksjon, utfor_plan, LimitUtfall,
    ManuellUtfall, PlanUtfall,
};
use b_rs::engine::rapport::{nordnet_runde, skriv_ukenokkel, speil_dag, ukesrapport};
use b_rs::engine::tikk::{historikklogg, intradaglogg, startlogg, startvarsel, valutasymbol, Tikkutfall};
use b_rs::engine::vakt::sjekk_alarmer;
use b_rs::engine::{equity, roll_bucket, skriv_visning, velg_strategi, Bryter, Engine};
use b_rs::state::{Alarm, Flags, LimitOrder, SavingsPlan, TxRow, UiState};
use b_rs::tabell::Tabell;
use b_rs::types::{Order, OrderStatus, Position, Quote, Side};

fn e8(x: f64) -> i64 {
    (x * 1e8).round() as i64
}

fn e16(x: f64) -> i128 {
    i128::from(e8(x)) * 100_000_000
}

fn oppsett() -> Config {
    Config {
        mode: "paper".to_string(),
        broker: "paper".to_string(),
        poll_secs: 15,
        watchlist: vec!["EQNR.OL".to_string()],
        starting_cash: e8(100_000.0),
        paper_reset: false,
        base_currency: "NOK".to_string(),
        market_hours_only: false,
        db_path: "b-rs.db".to_string(),
        live_ok: false,
        strategy: StrategyCfg { fast: 2, slow: 4, ..StrategyCfg::default() },
        risk: RiskCfg::default(),
        ibkr: None,
        revolutx: None,
        nordnet: NordnetCfg::default(),
        notify: NotifyCfg::default(),
        backtest: BacktestCfg::default(),
        goal: GoalCfg::default(),
        benchmark: "^OSEAX".to_string(),
        morgan: MorganCfg::default(),
        uno_x: UnoXCfg::default(),
        multi: MultiCfg::default(),
    }
}

fn motor() -> Engine {
    Engine::new(oppsett()).unwrap()
}

fn kurs(symbol: &str, last: f64, prev: f64, currency: &str) -> Quote {
    Quote {
        symbol: symbol.to_string(),
        last: e8(last),
        prev_close: e8(prev),
        currency: currency.to_string(),
        ts: 0,
    }
}

fn posisjon(symbol: &str, qty: f64, avg: f64, last: f64) -> Position {
    Position { symbol: symbol.to_string(), qty: e8(qty), avg_price: e8(avg), last: e8(last) }
}

#[test]
fn ukjent_strategi_stopper_motoren() {
    let mut c = oppsett();
    c.strategy.name = "dans".to_string();
    assert_eq!(Engine::new(c).unwrap_err(), "ukjent strategi: dans");
}

#[test]
fn antall_av_et_belop() {
    // Whole shares, fractions of a pair, and nothing without a price.
    assert_eq!(antall(e8(1_000.0), e8(300.0), false), e8(3.0));
    assert_eq!(antall(e8(1_000.0), e8(400.0), true), e8(2.5));
    assert_eq!(antall(e8(1_000.0), 0, true), 0);
    assert_eq!(order_size(e8(1_000.0), e8(7.0), e8(300.0), false), e8(3.0));
    assert_eq!(order_size(0, e8(7.0), e8(300.0), false), e8(7.0));
    // What is bought never costs more than the amount.
    let n = antall(e8(999.0), e8(7.0), false);
    assert!(i128::from(n) * i128::from(e8(7.0)) <= e16(999.0));
}

fn limit(symbol: &str, side: Side, qty: f64, belop: f64, nivaa: f64) -> LimitOrder {
    LimitOrder {
        symbol: symbol.to_string(),
        side,
        qty: e8(qty),
        amount_kr: e8(belop),
        level: e8(nivaa),
    }
}

#[test]
fn limit_ordrer_venter_eller_utloses() {
    let m = motor();
    let mut l = vec![
        limit("EQNR.OL", Side::Buy, 0.0, 1_000.0, 290.0),
        limit("EQNR.OL", Side::Sell, 0.0, 0.0, 280.0),
        limit("EQNR.OL", Side::Buy, 5.0, 0.0, 270.0),
        limit("DNB.OL", Side::Buy, 5.0, 0.0, 270.0),
    ];
    let fresh = vec![kurs("EQNR.OL", 285.0, 300.0, "NOK")];
    let eide = vec![posisjon("EQNR.OL", 10.0, 250.0, 285.0)];
    let ut = m.check_limit_orders(&mut l, &fresh, &eide);
    assert_eq!(ut.len() + l.len(), 4);
    assert_eq!(l.len(), 2);
    assert_eq!(l[0].level, e8(270.0));
    assert_eq!(l[1].symbol, "DNB.OL");
    match &ut[0] {
        LimitUtfall::Ordre { symbol, side, qty, melding, toast } => {
            assert_eq!(symbol, "EQNR.OL");
            assert_eq!(*side, Side::Buy);
            assert_eq!(*qty, e8(3.0));
            assert_eq!(
                melding,
                "💤 Limit-ordre utløst: KJØP EQNR.OL x3.0000 — kursen nådde 285.00 (nivå 290.00)."
            );
            assert_eq!(toast, "💤 Limit: KJØP EQNR.OL utløst.");
        }
        annet => panic!("{annet:?}"),
    }
    // A sale for no amount is a sale of nothing.
    match &ut[1] {
        LimitUtfall::Logg(t) => assert_eq!(
            t,
            "💤 Limit-ordre for EQNR.OL utløst, men ga 0 i antall (beløp 0 kr, kurs 285.00) — fjernet."
        ),
        annet => panic!("{annet:?}"),
    }
}

#[test]
fn limit_salg_aldri_mer_enn_eid() {
    let m = motor();
    let mut l = vec![limit("EQNR.OL", Side::Sell, 50.0, 0.0, 280.0)];
    let fresh = vec![kurs("EQNR.OL", 285.0, 300.0, "NOK")];
    let eide = vec![posisjon("EQNR.OL", 10.0, 250.0, 285.0)];
    match &m.check_limit_orders(&mut l, &fresh, &eide)[0] {
        LimitUtfall::Ordre { qty, .. } => assert_eq!(*qty, e8(10.0)),
        annet => panic!("{annet:?}"),
    }
}

#[test]
fn limit_uten_valutakurs() {
    let m = motor();
    let mut l = vec![limit("AAPL", Side::Buy, 1.0, 0.0, 300.0)];
    let fresh = vec![kurs("AAPL", 200.0, 200.0, "USD")];
    match &m.check_limit_orders(&mut l, &fresh, &Vec::new())[0] {
        LimitUtfall::Logg(t) => assert_eq!(
            t,
            "💤 Limit-ordre for AAPL utløst, men valutakursen mangler — ordren er fjernet."
        ),
        annet => panic!("{annet:?}"),
    }
    assert!(l.is_empty());
}

fn plan(symbol: &str, belop: f64, dag: u32, sist: &str) -> SavingsPlan {
    SavingsPlan {
        symbol: symbol.to_string(),
        amount_kr: e8(belop),
        day: dag,
        last_run: sist.to_string(),
    }
}

#[test]
fn spareavtaler_en_gang_i_maaneden() {
    let mut l = vec![
        plan("EQNR.OL", 1_000.0, 5, "2026-06"),
        plan("DNB.OL", 500.0, 20, "2026-06"),
        plan("BTC-USD", 500.0, 1, "2026-07"),
    ];
    let forfalte = ta_forfalte(&mut l, "2026-07", 10);
    assert_eq!(forfalte.len(), 1);
    assert_eq!(forfalte[0].symbol, "EQNR.OL");
    assert_eq!(l[0].last_run, "2026-07");
    assert_eq!(l[1].last_run, "2026-06");
    assert!(ta_forfalte(&mut l, "2026-07", 10).is_empty());
    // For want of a price it is tried again.
    angre(&mut l, "EQNR.OL", 5);
    assert_eq!(l[0].last_run, "");
    assert_eq!(ta_forfalte(&mut l, "2026-07", 10).len(), 1);
}

#[test]
fn spareavtaler_kjoper_hele_aksjer() {
    match utfor_plan(&plan("EQNR.OL", 1_000.0, 5, ""), e8(300.0), e8(300.0)) {
        PlanUtfall::Kjop { qty, melding, toast } => {
            assert_eq!(qty, e8(3.0));
            assert_eq!(
                melding,
                "📅 Spareavtale: kjøper EQNR.OL x3.0000 for ca. 1000 kr (dag 5 i måneden)."
            );
            assert_eq!(toast, "📅 Spareavtale: kjøper EQNR.OL.");
        }
        annet => panic!("{annet:?}"),
    }
    match utfor_plan(&plan("EQNR.OL", 100.0, 5, ""), e8(300.0), e8(300.0)) {
        PlanUtfall::ForLite(t) => assert_eq!(
            t,
            "📅 Spareavtale EQNR.OL: 100 kr rekker ikke til én aksje (kurs 300.00) — hoppet over denne måneden."
        ),
        annet => panic!("{annet:?}"),
    }
}

fn alarm(symbol: &str, level: f64, above: bool) -> Alarm {
    Alarm { symbol: symbol.to_string(), level: e8(level), above, triggered: false }
}

#[test]
fn alarmer_gaar_en_gang() {
    let mut l = vec![alarm("EQNR.OL", 290.0, true), alarm("EQNR.OL", 280.0, false), alarm("X", 1.0, true)];
    let fresh = vec![kurs("EQNR.OL", 291.5, 280.0, "NOK")];
    assert_eq!(sjekk_alarmer(&mut l, &fresh), vec!["🔔 Alarm: EQNR.OL over 290.00 (kurs nå 291.50)"]);
    assert!(l[0].triggered && !l[1].triggered && !l[2].triggered);
    assert!(sjekk_alarmer(&mut l, &fresh).is_empty());
}

#[test]
fn dagsfall_varsles_en_gang_om_dagen() {
    let mut c = oppsett();
    c.notify.day_move_alarm_pct = e8(5.0);
    let mut m = Engine::new(c).unwrap();
    let fresh = vec![kurs("EQNR.OL", 94.0, 100.0, "NOK"), kurs("DNB.OL", 96.0, 100.0, "NOK")];
    let eide = vec![posisjon("EQNR.OL", 1.0, 90.0, 94.0), posisjon("DNB.OL", 1.0, 90.0, 96.0)];
    assert_eq!(
        m.check_day_moves(&fresh, &eide, "2026-07-15"),
        vec!["⚠ EQNR.OL er ned 6.0 % i dag (kurs 94.00)."]
    );
    assert!(m.check_day_moves(&fresh, &eide, "2026-07-15").is_empty());
    assert_eq!(m.check_day_moves(&fresh, &eide, "2026-07-16").len(), 1);
    // A limit of nothing is off.
    m.cfg.notify.day_move_alarm_pct = 0;
    assert!(m.check_day_moves(&fresh, &eide, "2026-07-17").is_empty());
}

#[test]
fn beskyttende_salg() {
    let mut m = motor();
    let eide = vec![posisjon("EQNR.OL", 10.0, 100.0, 100.0)];
    let fresh = vec![kurs("EQNR.OL", 91.0, 100.0, "NOK")];
    m.folg_posisjoner(&fresh, &eide);
    // None while the kill switch is on.
    assert!(m.exits(true, &fresh, &eide).is_empty());
    let ut = m.exits(false, &fresh, &eide);
    assert_eq!(ut.len(), 1);
    assert_eq!(ut[0].qty, e8(10.0));
    assert_eq!(ut[0].price, e8(91.0));
    assert!(ut[0].reason.contains("Stop-loss"));
    assert!(ut[0].logg().ends_with(" utløst for EQNR.OL — selger hele posisjonen."));
    assert!(ut[0].varsel().ends_with(": selger EQNR.OL"));
    // Under way, it is not sold again; refused, it is tried again.
    m.exit_sendt("EQNR.OL");
    assert!(m.exits(false, &fresh, &eide).is_empty());
    m.exit_resultat("EQNR.OL", Some(OrderStatus::Filled));
    assert!(m.exits(false, &fresh, &eide).is_empty());
    m.exit_resultat("EQNR.OL", Some(OrderStatus::Rejected));
    assert_eq!(m.exits(false, &fresh, &eide).len(), 1);
    m.exit_sendt("EQNR.OL");
    m.exit_resultat("EQNR.OL", None);
    assert_eq!(m.exits(false, &fresh, &eide).len(), 1);
}

#[test]
fn toppen_stiger_og_glemmes() {
    let mut c = oppsett();
    c.risk.stop_loss_pct = 0;
    c.risk.trailing_stop_pct = e8(8.0);
    let mut m = Engine::new(c).unwrap();
    let eide = vec![posisjon("EQNR.OL", 10.0, 100.0, 100.0)];
    m.folg_posisjoner(&vec![kurs("EQNR.OL", 140.0, 100.0, "NOK")], &eide);
    m.folg_posisjoner(&vec![kurs("EQNR.OL", 130.0, 100.0, "NOK")], &eide);
    assert_eq!(m.peaks.hent("EQNR.OL"), Some(&e8(140.0)));
    assert!(m.exits(false, &vec![kurs("EQNR.OL", 130.0, 100.0, "NOK")], &eide).is_empty());
    let ut = m.exits(false, &vec![kurs("EQNR.OL", 128.0, 100.0, "NOK")], &eide);
    assert!(ut[0].reason.contains("Trailing"));
    m.folg_posisjoner(&Vec::new(), &Vec::new());
    assert_eq!(m.peaks.hent("EQNR.OL"), None);
}

#[test]
fn valutaer_hentes_og_regnes_om() {
    let mut m = motor();
    let l = vec![kurs("AAPL", 200.0, 200.0, "USD"), kurs("EQNR.OL", 1.0, 1.0, "NOK"), kurs("MSFT", 1.0, 1.0, "USD")];
    assert_eq!(m.valutaer(&l), vec!["USD"]);
    assert!(m.trenger_kurs("USD", 0));
    assert_eq!(m.base_price(&l[0]), None);
    assert_eq!(
        m.valuta_hentet("USD", None, 0).unwrap(),
        "Fikk ikke valutakurs USD/NOK — hopper over handel i USD-instrumenter inntil videre."
    );
    assert_eq!(m.valuta_hentet("USD", None, 1), None);
    assert_eq!(m.valuta_hentet("USD", Some(e8(10.5)), 2).unwrap(), "Valutakurs USD/NOK: 10.500");
    assert_eq!(m.base_price(&l[0]), Some(e8(2_100.0)));
    assert!(!m.trenger_kurs("USD", 3));
    assert!(m.trenger_kurs("USD", 900_000_000_002));
    assert_eq!(valutasymbol("USD", "NOK"), "USDNOK=X");
}

#[test]
fn vakthunden_roper_etter_fem() {
    let mut m = motor();
    for _ in 0..4 {
        assert_eq!(m.vakthund(0, 3), None);
    }
    assert_eq!(m.vakthund(0, 3), Some("⚠ Mistet kursdata — fem runder på rad uten svar fra Yahoo."));
    assert_eq!(m.vakthund(0, 3), None);
    assert_eq!(m.vakthund(1, 3), None);
    assert_eq!(m.fail_streak, 0);
}

#[test]
fn brytere_og_kontantfeil() {
    let mut m = motor();
    assert_eq!(m.handle_kill_switch(false), Bryter::Uendret);
    assert_eq!(m.handle_kill_switch(true), Bryter::Paa);
    assert_eq!(m.handle_kill_switch(true), Bryter::Uendret);
    assert_eq!(m.handle_kill_switch(false), Bryter::Av);
    assert!(m.kontantfeil(true));
    assert!(!m.kontantfeil(true));
    assert!(!m.kontantfeil(false));
    assert!(m.kontantfeil(true));
}

/// A screen on which the usual strategy has seen falling prices.
fn skjerm() -> UiState {
    let mut st = UiState::new("paper", "paper", false);
    st.strategy_name = "sma_cross".to_string();
    for (i, p) in [110.0, 108.0, 106.0, 104.0, 102.0].iter().enumerate() {
        st.push_price("EQNR.OL", i as i64, e8(*p));
    }
    st
}

#[test]
fn en_kurs_blir_en_ordre() {
    let mut c = oppsett();
    c.strategy.order_value = e8(1_000.0);
    let mut m = Engine::new(c).unwrap();
    let st = skjerm();
    let q = kurs("EQNR.OL", 115.0, 102.0, "NOK");
    match m.tikk_kurs(&st, &Flags::default(), &q, &Vec::new(), e16(100_000.0), 0, 0) {
        Tikkutfall::Ordre { side, qty, price, note } => {
            assert_eq!(side, Side::Buy);
            assert_eq!(qty, e8(8.0));
            assert_eq!(price, e8(115.0));
            assert_eq!(note, "signal fra sma_cross");
        }
        annet => panic!("{annet:?}"),
    }
    // Further up: no signal.
    let q = kurs("EQNR.OL", 125.0, 102.0, "NOK");
    assert!(matches!(
        m.tikk_kurs(&st, &Flags::default(), &q, &Vec::new(), e16(100_000.0), 1, 1),
        Tikkutfall::Ingenting
    ));
    // Far down: the whole position is sold.
    let q = kurs("EQNR.OL", 60.0, 102.0, "NOK");
    let eide = vec![posisjon("EQNR.OL", 8.0, 115.0, 60.0)];
    match m.tikk_kurs(&st, &Flags::default(), &q, &eide, e16(100_000.0), 2, 2) {
        Tikkutfall::Ordre { side, qty, .. } => {
            assert_eq!(side, Side::Sell);
            assert_eq!(qty, e8(8.0));
        }
        annet => panic!("{annet:?}"),
    }
}

#[test]
fn kill_og_pause_stopper_strategien() {
    for f in [
        Flags { quit: false, killed: true, paused: false },
        Flags { quit: false, killed: false, paused: true },
    ] {
        let mut m = motor();
        let q = kurs("EQNR.OL", 115.0, 102.0, "NOK");
        assert!(matches!(
            m.tikk_kurs(&skjerm(), &f, &q, &Vec::new(), e16(100_000.0), 0, 0),
            Tikkutfall::Ingenting
        ));
        // The price was not seen: the signal is still to come.
        assert!(matches!(
            m.tikk_kurs(&skjerm(), &Flags::default(), &q, &Vec::new(), e16(100_000.0), 0, 0),
            Tikkutfall::Ordre { .. }
        ));
    }
}

#[test]
fn stengt_bors_stopper_strategien() {
    let mut c = oppsett();
    c.market_hours_only = true;
    let mut m = Engine::new(c).unwrap();
    let q = kurs("EQNR.OL", 115.0, 102.0, "NOK");
    // A Saturday, and a Wednesday at ten in Oslo.
    assert!(matches!(
        m.tikk_kurs(&skjerm(), &Flags::default(), &q, &Vec::new(), e16(100_000.0), 1_784_368_800, 0),
        Tikkutfall::Ingenting
    ));
    assert!(matches!(
        m.tikk_kurs(&skjerm(), &Flags::default(), &q, &Vec::new(), e16(100_000.0), 1_784_102_400, 0),
        Tikkutfall::Ordre { .. }
    ));
}

#[test]
fn risikoreglene_stopper_strategien() {
    let mut c = oppsett();
    c.strategy.order_value = e8(1_000.0);
    c.risk.max_daily_loss = e8(500.0);
    let mut m = Engine::new(c).unwrap();
    m.risk.observe_equity(e16(10_000.0));
    let q = kurs("EQNR.OL", 115.0, 102.0, "NOK");
    match m.tikk_kurs(&skjerm(), &Flags::default(), &q, &Vec::new(), e16(9_000.0), 0, 0) {
        Tikkutfall::Logg(t, Some(v)) => {
            assert_eq!(
                t,
                "KJØP EQNR.OL blokkert av risikoregel: tapsgrense nådd (1000 >= 500) — handel stoppet"
            );
            assert_eq!(v, "🛑 tapsgrense nådd (1000 >= 500) — handel stoppet");
        }
        annet => panic!("{annet:?}"),
    }
    // An amount that does not reach is told.
    let mut c = oppsett();
    c.strategy.order_value = e8(100.0);
    let mut m = Engine::new(c).unwrap();
    match m.tikk_kurs(&skjerm(), &Flags::default(), &q, &Vec::new(), e16(9_000.0), 0, 0) {
        Tikkutfall::Logg(t, None) => assert_eq!(
            t,
            "EQNR.OL: order_value 100 rekker ikke til én enhet (kurs 115.00) — hopper over."
        ),
        annet => panic!("{annet:?}"),
    }
}

#[test]
fn manuelle_ordrer() {
    let mut m = motor();
    let mut st = UiState::new("paper", "paper", false);
    let flagg = Flags::default();
    let o = ("EQNR.OL".to_string(), Side::Buy, e8(10.0));
    // Without a quote, with the last known one, and with a fresh one.
    match m.tikk_manuell(&st, &flagg, &o, &Vec::new(), &Vec::new(), 0, 0) {
        ManuellUtfall::Logg(t) => assert_eq!(t, "Manuell ordre: mangler kurs eller valutakurs for EQNR.OL."),
        annet => panic!("{annet:?}"),
    }
    st.quotes.sett("EQNR.OL", kurs("EQNR.OL", 100.0, 100.0, "NOK"));
    assert!(matches!(
        m.tikk_manuell(&st, &flagg, &o, &Vec::new(), &Vec::new(), 0, 0),
        ManuellUtfall::Send(p) if p == e8(100.0)
    ));
    let fresh = vec![kurs("EQNR.OL", 101.0, 100.0, "NOK")];
    assert!(matches!(
        m.tikk_manuell(&st, &flagg, &o, &fresh, &Vec::new(), 0, 0),
        ManuellUtfall::Send(p) if p == e8(101.0)
    ));
    // The kill switch, and an order that is too large.
    let kill = Flags { quit: false, killed: true, paused: false };
    match m.tikk_manuell(&st, &kill, &o, &fresh, &Vec::new(), 0, 0) {
        ManuellUtfall::Logg(t) => assert_eq!(t, "Manuell ordre KJØP EQNR.OL forkastet — kill switch er på."),
        annet => panic!("{annet:?}"),
    }
    let stor = ("EQNR.OL".to_string(), Side::Buy, e8(1_000.0));
    match m.tikk_manuell(&st, &flagg, &stor, &fresh, &Vec::new(), 0, 0) {
        ManuellUtfall::Logg(t) => assert_eq!(
            t,
            "Manuell KJØP EQNR.OL blokkert av risikoregel: ordreverdi 101000 over maks 10000"
        ),
        annet => panic!("{annet:?}"),
    }
}

#[test]
fn strategien_byttes() {
    let mut m = motor();
    let mut st = UiState::new("paper", "paper", false);
    assert_eq!(m.handle_strategy_switch(&mut st), None);
    st.strategy_request = Some("rsi".to_string());
    assert_eq!(m.handle_strategy_switch(&mut st).unwrap(), "Standardstrategi byttet til rsi.");
    assert_eq!(st.strategy_name, "rsi");
    assert_eq!(st.strategy_request, None);
    st.strategy_request = Some("dans".to_string());
    let for_: Vec<String> = m.strategies.rader.iter().map(|r| r.0.clone()).collect();
    assert_eq!(for_, vec!["rsi", "sma_cross"]);
    assert_eq!(m.handle_strategy_switch(&mut st).unwrap(), "Ukjent strategi dans: ukjent strategi: dans");
    assert_eq!(st.strategy_name, "rsi");
    let etter: Vec<String> = m.strategies.rader.iter().map(|r| r.0.clone()).collect();
    assert_eq!(etter, for_);
}

#[test]
fn egne_strategier_gaar_foran() {
    let mut egne: Tabell<String> = Tabell::ny();
    egne.sett("DNB.OL", "rsi".to_string());
    assert_eq!(velg_strategi(&egne, "sma_cross", "DNB.OL"), "rsi");
    assert_eq!(velg_strategi(&egne, "sma_cross", "EQNR.OL"), "sma_cross");
    assert_eq!(skriv_visning("rsi", 0, "RSI 44"), "[rsi · hvert tikk] RSI 44");
    assert_eq!(skriv_visning("rsi", 15, "RSI 44"), "[rsi · 15 min-lys] RSI 44");
}

#[test]
fn lys_lukkes_med_siste_kurs() {
    let mut m = motor();
    m.cfg.strategy.timeframe_min = 1;
    assert_eq!(m.pris_for_signal("X", e8(1.0), 0), None);
    assert_eq!(m.pris_for_signal("X", e8(2.0), 59), None);
    assert_eq!(m.pris_for_signal("X", e8(3.0), 60), Some(e8(2.0)));
    assert_eq!(roll_bucket(Some((1, 2)), 2, 3), ((2, 3), Some(2)));
}

#[test]
fn egenkapitalen_summeres() {
    let l = vec![posisjon("A", 2.0, 1.0, 10.0), posisjon("B", 1.0, 1.0, 5.0)];
    assert_eq!(equity(e16(100.0), &l), Some(e16(125.0)));
    assert_eq!(equity(i128::MAX, &l), None);
}

#[test]
fn ukesrapporten() {
    let mut h: Tabell<Vec<(i64, i64)>> = Tabell::ny();
    h.sett("A", vec![(0, e8(100.0)), (700_000, e8(110.0))]);
    h.sett("B", vec![(0, e8(100.0)), (700_000, e8(90.0))]);
    let l = vec![posisjon("A", 1.0, 1.0, 1.0), posisjon("B", 1.0, 1.0, 1.0)];
    let r = ukesrapport(e16(1_050.0), "2026-W29", 4, 16, Some("2026-W29:1000.0"), None, &l, &h, 604_800);
    assert!(r.start.is_none());
    let (t, uke) = r.rapport.unwrap();
    assert_eq!(uke, "2026-W29");
    assert_eq!(
        t,
        "📊 Ukesrapport: porteføljen +5.0 % (+50 kr) denne uken. Egenkapital: 1050 kr. Beste: A +10.0 %. Svakeste: B -10.0 %."
    );
    // A new week, and one that is reported already.
    let r = ukesrapport(e16(1_050.0), "2026-W30", 0, 9, Some("2026-W29:1000.0"), None, &l, &h, 604_800);
    assert_eq!(r.start.unwrap(), "2026-W30:1050.00000000");
    assert!(r.rapport.is_none());
    let r = ukesrapport(e16(1_050.0), "2026-W29", 4, 17, None, Some("2026-W29"), &l, &h, 604_800);
    assert!(r.rapport.is_none());
    assert_eq!(skriv_ukenokkel(2026, 7), "2026-W07");
}

#[test]
fn dagsoppsummeringen() {
    let mut c = oppsett();
    c.notify.daily_summary = true;
    let m = Engine::new(c).unwrap();
    let fresh = vec![kurs("EQNR.OL", 105.0, 100.0, "NOK")];
    let eide = vec![posisjon("EQNR.OL", 10.0, 90.0, 105.0)];
    let tx = vec![TxRow {
        ts: "15.07.2026 10:00".to_string(),
        symbol: "EQNR.OL".to_string(),
        side: "KJØP".to_string(),
        qty: e8(10.0),
        price: e8(90.0),
        status: "FYLT".to_string(),
        broker: "paper".to_string(),
        note: String::new(),
    }];
    let t = m
        .dagsoppsummering(e16(1_050.0), 2, 16, 30, "2026-07-15", None, &fresh, &eide, &tx, "15.07.2026")
        .unwrap();
    assert_eq!(
        t,
        "🌇 Dagen: +5.0 % (+50 kr). Egenkapital: 1050 kr. EQNR.OL +5.0 %. 1 handler i dag."
    );
    // Too early, done already, and at the weekend.
    let naar = |ukedag, minutt, sist| {
        m.dagsoppsummering(e16(1_050.0), ukedag, 16, minutt, "2026-07-15", sist, &fresh, &eide, &tx, "")
    };
    assert!(naar(2, 29, None).is_none());
    assert!(naar(2, 30, Some("2026-07-15")).is_none());
    assert!(naar(5, 30, None).is_none());
}

#[test]
fn egenkapitalen_lagres_hvert_femte_minutt() {
    let mut m = motor();
    assert!(!m.skal_lagre(0, 0));
    assert!(m.skal_lagre(1, 0));
    assert!(!m.skal_lagre(1, 300_000_000_000));
    assert!(m.skal_lagre(1, 300_000_000_001));
    let mut l = vec![(0, 1)];
    speil_dag(&mut l, Some("2026-07-15"), "2026-07-15", 5, 2);
    assert_eq!(l, vec![(5, 2)]);
    speil_dag(&mut l, Some("2026-07-15"), "2026-07-16", 6, 3);
    assert_eq!(l, vec![(5, 2), (6, 3)]);
}

#[test]
fn nordnet_sier_fra_en_gang() {
    let mut feil: Option<String> = None;
    assert_eq!(nordnet_runde(&mut feil, None, "401"), vec!["Nordnet-lesemodus: 401"]);
    assert!(nordnet_runde(&mut feil, None, "401").is_empty());
    assert_eq!(
        nordnet_runde(&mut feil, Some(3), ""),
        vec!["Nordnet-lesemodus: tilkobling gjenopprettet.", "Nordnet: hentet 3 posisjoner"]
    );
    assert_eq!(nordnet_runde(&mut feil, Some(3), ""), vec!["Nordnet: hentet 3 posisjoner"]);
}

#[test]
fn ordrer_i_ord() {
    let mut o = Order {
        id: "P1".to_string(),
        symbol: "EQNR.OL".to_string(),
        side: Side::Buy,
        qty: e8(10.0),
        status: OrderStatus::Filled,
        avg_price: e8(300.0),
        created: 0,
        note: "manuell ordre".to_string(),
    };
    assert_eq!(ordrelogg(&o), "ORDRE: KJØP EQNR.OL x10 @ 300.00 [FYLT]");
    assert_eq!(ordrevarsel(&o).unwrap(), "KJØP EQNR.OL x10 @ 300.00 [FYLT] — manuell ordre");
    let t = transaksjon(&o, "15.07.2026 10:00", "paper");
    assert_eq!((t.side.as_str(), t.status.as_str(), t.broker.as_str()), ("KJØP", "FYLT", "paper"));
    o.status = OrderStatus::Rejected;
    assert_eq!(ordrelogg(&o), "AVVIST: KJØP EQNR.OL x10 @ 300.00 [AVVIST]");
    assert_eq!(ordrevarsel(&o), None);
}

#[test]
fn motoren_sier_fra() {
    let c = oppsett();
    assert_eq!(startlogg(&c, "paper"), "Engine startet — modus=paper, megler=paper, strategi=sma_cross");
    assert_eq!(startvarsel(&c, "paper"), "Startet i paper-modus (megler: paper, strategi: sma_cross).");
    assert_eq!(historikklogg("X", 250), "X: sådd med 250 dagers historikk");
    assert_eq!(historikklogg("X", 0), "X: tom historikk fra Yahoo");
    assert_eq!(intradaglogg("X", 60), "X: 60 intradag-lys (5 min) til tidsramme-strategien");
    assert!(intradaglogg("X", 0).starts_with("X: fikk ikke intradag-historikk"));
}

#[test]
fn autopiloten_har_standardverdier() {
    let a = AutopilotCfg::default();
    assert_eq!(a.symbol, "BTC-USD");
    assert_eq!(a.budget_kr, e8(1_000.0));
}

#[test]
fn ukjent_strategi_logges() {
    let mut m = motor();
    let mut st = skjerm();
    st.symbol_strategy.sett("EQNR.OL", "dans".to_string());
    let q = kurs("EQNR.OL", 115.0, 102.0, "NOK");
    match m.tikk_kurs(&st, &Flags::default(), &q, &Vec::new(), e16(100_000.0), 0, 0) {
        Tikkutfall::Logg(t, varsel) => {
            assert_eq!(t, "Ukjent strategi dans: ukjent strategi: dans");
            assert!(varsel.is_none());
        }
        annet => panic!("{annet:?}"),
    }
    assert_eq!(m.strategy_view(&st, "EQNR.OL"), None);
}

#[test]
fn strategiens_staasted() {
    let mut m = motor();
    let mut st = skjerm();
    assert_eq!(
        m.strategy_view(&st, "EQNR.OL").unwrap(),
        "[sma_cross · hvert tikk] raskt snitt under tregt"
    );
    // No prices, no view.
    assert_eq!(m.strategy_view(&st, "DNB.OL"), None);
    st.symbol_strategy.sett("EQNR.OL", "momentum".to_string());
    assert_eq!(m.strategy_view(&st, "EQNR.OL").unwrap(), "[momentum · hvert tikk] 5 kurser i vinduet");
    // Looking took nothing from the signal.
    st.symbol_strategy.ta("EQNR.OL");
    let q = kurs("EQNR.OL", 115.0, 102.0, "NOK");
    assert!(matches!(
        m.tikk_kurs(&st, &Flags::default(), &q, &Vec::new(), e16(100_000.0), 0, 0),
        Tikkutfall::Ordre { .. }
    ));
}
