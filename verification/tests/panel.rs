use b_rs::backtest::run;
use b_rs::belop::fmt_thousands;
use b_rs::config::{BacktestCfg, StrategyCfg};
use b_rs::gui::handel::{
    alarmforslag, beste_avkastning, bruk_strategi, ekstern_navn, fjern_symbol, forste_symbol, legg_i_ko,
    legg_til_alarm, posisjonslinje, run_backtest, skriv_oppsummering, skriv_treff, sparkline, vis_alarm,
};
use b_rs::gui::innstillinger::{autostart_skript, innstillingsfil};
use b_rs::gui::portefolje::{
    beholdning, export_transactions_csv, fordeling, kontokort, realisert_tekst, sum_i_dag, sum_investert,
    sum_utbytte, transaksjonsbelop, utbyttelinje,
};
use b_rs::gui::{
    dagerfarge, ferskhet, fmt_med_fortegn, fmt_turnover, fmt_verdi, grafoverskrift, hendelsesfarge,
    kill_tekst, lysfarge, nokkeltall, pause_tekst, rsi_farge, skriv_endring, skriv_pct, sma_series,
    strategilage, synlige_punkter, updown, verdict_for, viste_ordrer, ChartRange, Farge, Ferskhet,
    OrderFilter,
};
use b_rs::pnl::{realized_fifo, Fill};
use b_rs::state::{Flags, TxRow, UiState};
use b_rs::types::{Candle, ExternalPosition, Order, OrderStatus, Position, Quote, Side};

fn e8(x: f64) -> i64 {
    (x * 1e8).round() as i64
}

fn e16(x: f64) -> i128 {
    i128::from(e8(x)) * 100_000_000
}

fn posisjon(symbol: &str, qty: f64, avg: f64, last: f64) -> Position {
    Position { symbol: symbol.to_string(), qty: e8(qty), avg_price: e8(avg), last: e8(last) }
}

fn kurs(symbol: &str, last: f64, prev: f64) -> Quote {
    Quote {
        symbol: symbol.to_string(),
        last: e8(last),
        prev_close: e8(prev),
        currency: "NOK".to_string(),
        ts: 0,
    }
}

fn ordre(status: OrderStatus) -> Order {
    Order {
        id: "P1".to_string(),
        symbol: "X".to_string(),
        side: Side::Buy,
        qty: e8(1.0),
        status,
        avg_price: e8(1.0),
        created: 0,
        note: String::new(),
    }
}

#[test]
fn tall_paa_skjermen() {
    assert_eq!(fmt_verdi(e16(1_234_567.8)), "1 234 568");
    assert_eq!(fmt_verdi(e16(-1_500.0)), "-1 500");
    assert_eq!(fmt_verdi(0), "0");
    assert_eq!(fmt_med_fortegn(e16(1_500.0)), "+1 500");
    assert_eq!(fmt_med_fortegn(e16(-1_500.0)), "-1 500");
    assert_eq!(skriv_pct(i128::from(e8(1.234)), 2), "+1.23 %");
    assert_eq!(skriv_pct(i128::from(e8(-1.25)), 1), "-1.2 %");
    assert_eq!(fmt_turnover(e16(2_500_000_000.0)), "2.5 mrd");
    assert_eq!(fmt_turnover(e16(12_400_000.0)), "12 mill");
    assert_eq!(fmt_thousands(i128::from(e8(98_765.4))), "98 765");
}

#[test]
fn farger() {
    assert_eq!(updown(0), Farge::Gronn);
    assert_eq!(updown(-1), Farge::Rod);
    assert_eq!(lysfarge(e8(10.0), e8(9.0)), Farge::Rod);
    assert_eq!(rsi_farge(e8(71.0)), Farge::Gul);
    assert_eq!(rsi_farge(e8(50.0)), Farge::Graa);
    assert_eq!(dagerfarge(7), Farge::Gul);
    assert_eq!(dagerfarge(8), Farge::Graa);
    assert_eq!(hendelsesfarge("Kvartalsrapport"), Farge::Blaa);
    assert_eq!(hendelsesfarge("Eks-utbytte"), Farge::Gul);
    assert_eq!(hendelsesfarge("Utbytte"), Farge::Gronn);
    assert_eq!(verdict_for(2), ("Positiv 📈", Farge::Gronn));
    assert_eq!(verdict_for(-2), ("Svak 📉", Farge::Rod));
    assert_eq!(verdict_for(1), ("Nøytral ➖", Farge::Graa));
}

#[test]
fn ordrefilter() {
    let l = vec![
        ordre(OrderStatus::Filled),
        ordre(OrderStatus::Submitted),
        ordre(OrderStatus::Rejected),
        ordre(OrderStatus::Cancelled),
    ];
    assert_eq!(viste_ordrer(&l, OrderFilter::Alle), vec![0, 1, 2, 3]);
    assert_eq!(viste_ordrer(&l, OrderFilter::Aktive), vec![1]);
    assert_eq!(viste_ordrer(&l, OrderFilter::Fullforte), vec![0]);
    assert_eq!(viste_ordrer(&l, OrderFilter::Kansellerte), vec![2, 3]);
}

#[test]
fn grafen() {
    let h = vec![(0, e8(10.0)), (1_000_000, e8(20.0)), (1_500_000, e8(40.0))];
    assert_eq!(ChartRange::Week.seconds(), Some(604_800));
    assert_eq!(ChartRange::All.seconds(), None);
    assert_eq!(synlige_punkter(&h, ChartRange::Week, 1_600_000), h[1..].to_vec());
    assert_eq!(synlige_punkter(&h, ChartRange::All, 1_600_000), h);
    assert_eq!(sma_series(&h, 2), vec![(1_000_000, e8(15.0)), (1_500_000, e8(30.0))]);
    assert!(sma_series(&h, 4).is_empty());
    assert!(sma_series(&h, 0).is_empty());
    assert_eq!(grafoverskrift(&kurs("X", 101.0, 100.0)), "101.00  (+1.00 %)");
    assert_eq!(skriv_endring(&kurs("X", 99.0, 100.0)).1, Farge::Rod);
}

#[test]
fn ferske_kurser() {
    assert!(matches!(ferskhet(None, 100, 15), Ferskhet::Venter));
    assert!(matches!(ferskhet(Some(40), 100, 15), Ferskhet::Fersk));
    match ferskhet(Some(39), 100, 5) {
        Ferskhet::Gammel(t) => assert_eq!(t, "⚠ ingen ferske kurser på 61 s"),
        annet => panic!("{annet:?}"),
    }
}

#[test]
fn knapper_og_lage() {
    assert_eq!(kill_tekst(true), "HANDEL STOPPET — klikk for å gjenoppta");
    assert_eq!(kill_tekst(false), "⛔ KILL SWITCH");
    assert_eq!(pause_tekst(true), "▶ Fortsett strategi");
    assert_eq!(pause_tekst(false), "⏸ Pause strategi");
    let f = Flags { quit: false, killed: true, paused: true };
    assert_eq!(strategilage(&f), ("STOPPET", Farge::Rod));
    let mut st = UiState::new("paper", "paper", false);
    st.cash = e16(1_000.0);
    st.drawdown = e16(-50.0);
    let k = nokkeltall(&st, &Flags::default());
    assert_eq!(k[0].verdi, "1 000 kr");
    assert_eq!(k[2].verdi, "-50 kr");
    assert_eq!(k[2].farge, Farge::Rod);
    assert_eq!(k[4].verdi, "AKTIV");
}

fn skjerm() -> UiState {
    let mut st = UiState::new("paper", "paper", false);
    for s in ["EQNR.OL", "DNB.OL"] {
        st.follow(s, 0);
        st.quotes.sett(s, kurs(s, 110.0, 100.0));
    }
    st.positions = vec![posisjon("EQNR.OL", 10.0, 90.0, 110.0)];
    st.dividends.sett("EQNR.OL", e8(5.0));
    st.equity = e16(2_100.0);
    st.cash = e16(1_000.0);
    st.start_cash = e16(2_000.0);
    st
}

#[test]
fn watchlisten() {
    let mut st = skjerm();
    let mut valgt = Some("DNB.OL".to_string());
    assert_eq!(forste_symbol(&st).unwrap(), "DNB.OL");
    fjern_symbol(&mut st, &mut valgt, "DNB.OL", 5);
    assert_eq!(st.watchlist, vec!["EQNR.OL"]);
    assert_eq!(valgt.unwrap(), "EQNR.OL");
    assert_eq!(st.logs[0], (5, "DNB.OL fjernet fra watchlisten.".to_string()));
    st.push_price("EQNR.OL", 0, e8(10.0));
    st.push_price("EQNR.OL", 1, e8(9.0));
    let (l, farge) = sparkline(&st, "EQNR.OL");
    assert_eq!(l.len(), 2);
    assert_eq!(farge, Farge::Rod);
    assert_eq!(sparkline(&st, "X").1, Farge::Graa);
}

#[test]
fn strategivalg() {
    let mut st = skjerm();
    assert!(bruk_strategi(&mut st, "EQNR.OL", "rsi", 0));
    assert_eq!(st.symbol_strategy.hent("EQNR.OL").unwrap(), "rsi");
    assert_eq!(st.logs[0].1, "EQNR.OL bruker nå strategien rsi.");
    assert!(bruk_strategi(&mut st, "EQNR.OL", "standard", 0));
    assert!(!bruk_strategi(&mut st, "EQNR.OL", "standard", 0));
    assert!(st.symbol_strategy.hent("EQNR.OL").is_none());
}

#[test]
fn backtest_fra_skjermen() {
    let mut st = skjerm();
    st.strategy_cfg = StrategyCfg { fast: 2, slow: 4, ..StrategyCfg::default() };
    st.backtest_cfg = BacktestCfg { commission_pct: 0, slippage_pct: 0 };
    assert_eq!(run_backtest(None, "rsi", &st).unwrap_err(), "Velg et symbol i watchlisten først.");
    assert_eq!(
        run_backtest(Some("EQNR.OL"), "rsi", &st).unwrap_err(),
        "Ingen historikk ennå — vent til kursene er lastet."
    );
    let lys: Vec<Candle> = [110.0, 108.0, 106.0, 104.0, 102.0, 115.0, 125.0, 130.0, 90.0, 70.0]
        .iter()
        .enumerate()
        .map(|(i, c)| Candle { ts: i as i64, open: e8(*c), high: e8(*c), low: e8(*c), close: e8(*c) })
        .collect();
    let hele = run("EQNR.OL", &lys, "sma_cross", &st.strategy_cfg, &st.backtest_cfg).unwrap();
    st.candles.sett("EQNR.OL", lys);
    assert_eq!(run_backtest(Some("EQNR.OL"), "dans", &st).unwrap_err(), "ukjent strategi: dans");
    let a = run_backtest(Some("EQNR.OL"), "sma_cross", &st);
    let b = run_backtest(Some("EQNR.OL"), "momentum", &st);
    assert_eq!(a.as_ref().unwrap().return_pct, hele.return_pct);
    assert_eq!(skriv_treff(a.as_ref().unwrap()), "0/1");
    assert_eq!(skriv_oppsummering(a.as_ref().unwrap()), "1 handler, 0 med gevinst — kostnader: 0 kr");
    let mut dyr = run("EQNR.OL", &st.candles.hent("EQNR.OL").unwrap()[..], "sma_cross", &st.strategy_cfg, &st.backtest_cfg)
        .unwrap();
    dyr.costs_paid = i128::from(e8(250.0));
    assert_eq!(skriv_oppsummering(&dyr), "1 handler, 0 med gevinst — kostnader: 250 kr");
    // Nothing was bought by the other: it kept its money, and is the best.
    assert_eq!(skriv_treff(b.as_ref().unwrap()), "–");
    assert_eq!(beste_avkastning(&vec![a, b, Err("x".to_string())]), Some(0));
    assert_eq!(beste_avkastning(&vec![Err("x".to_string())]), None);
}

#[test]
fn ordrer_og_alarmer_fra_skjermen() {
    let mut st = skjerm();
    legg_i_ko(&mut st, "EQNR.OL", Side::Sell, e8(3.0), 0);
    assert_eq!(st.manual_orders, vec![("EQNR.OL".to_string(), Side::Sell, e8(3.0))]);
    assert_eq!(st.logs[0].1, "Manuell SELG EQNR.OL x3 lagt i kø.");
    assert_eq!(alarmforslag(0, Some(&kurs("X", 12.345, 1.0))), i128::from(e8(12.35)));
    assert_eq!(alarmforslag(e8(7.0), Some(&kurs("X", 12.345, 1.0))), i128::from(e8(7.0)));
    assert!(!legg_til_alarm(&mut st, "EQNR.OL", 0, true, 0));
    assert!(legg_til_alarm(&mut st, "EQNR.OL", e8(120.0), true, 0));
    assert_eq!(st.logs[0].1, "Alarm lagt til: EQNR.OL over 120.00");
    assert_eq!(vis_alarm(&st.alarms[0]), ("EQNR.OL over 120.00".to_string(), Farge::Gul));
    st.alarms[0].triggered = true;
    assert_eq!(vis_alarm(&st.alarms[0]), ("EQNR.OL over 120.00 — utløst ✔".to_string(), Farge::Graa));
}

#[test]
fn posisjoner_paa_skjermen() {
    let l = posisjonslinje(&posisjon("EQNR.OL", 10.0, 120.0, 110.0));
    assert_eq!(l.verdi, "1 100");
    assert_eq!(l.gevinst, "-100");
    assert_eq!(l.farge, Farge::Rod);
    let mut p = ExternalPosition {
        symbol: "?".to_string(),
        name: "DNB Global".to_string(),
        qty: e8(1.0),
        market_value: e8(1.0),
    };
    assert_eq!(ekstern_navn(&p), "[NN] DNB Global");
    p.symbol = "DNBG".to_string();
    assert_eq!(ekstern_navn(&p), "[NN] DNBG");
}

#[test]
fn portefoljen() {
    let st = skjerm();
    assert_eq!(sum_i_dag(&st), Some(e16(100.0)));
    assert_eq!(sum_investert(&st.positions), Some(e16(1_100.0)));
    assert_eq!(sum_utbytte(&st), Some(e16(50.0)));
    let k = kontokort(&st).unwrap();
    assert_eq!(k[2].verdi, "+100 kr (+5.00 %)");
    assert_eq!(k[3].verdi, "+100 kr (+5.00 %)");
    let b = beholdning(&st, &st.positions[0], e16(2_200.0)).unwrap();
    assert_eq!(b.verdi, "1 100");
    assert_eq!(b.urealisert, ("+200 kr (+22.2 %)".to_string(), Farge::Gronn));
    assert_eq!(b.i_dag, ("+100 kr".to_string(), Farge::Gronn));
    assert_eq!(b.utbytte, ("50 kr".to_string(), Farge::Gul));
    assert_eq!(b.andel, "50.0 %");
    let (pct, t) = fordeling("EQNR.OL", e16(550.0), e16(1_100.0));
    assert_eq!(pct, i128::from(e8(50.0)));
    assert_eq!(t, "EQNR.OL  50.0 %  (550 kr)");
    assert_eq!(
        utbyttelinje(e16(50.0)).unwrap(),
        "💰 Utbytte: beholdningen din betalte 50 kr siste 12 mnd (indikasjon på årlig utbytteinntekt)."
    );
    assert!(utbyttelinje(0).is_none());
}

#[test]
fn realisert_paa_skjermen() {
    let f = |ts: &str, is_buy, price| Fill {
        ts_rfc3339: ts.to_string(),
        symbol: "X".to_string(),
        is_buy,
        qty: e8(10.0),
        price: e8(price),
    };
    let t = realized_fifo(&[
        f("2026-01-05T10:00:00+00:00", true, 100.0),
        f("2026-02-05T10:00:00+00:00", false, 90.0),
    ]);
    assert_eq!(realisert_tekst(&t, 2026).unwrap(), ("-100 kr".to_string(), Farge::Rod));
    assert_eq!(realisert_tekst(&t, 2025).unwrap(), ("+0 kr".to_string(), Farge::Gronn));
}

#[test]
fn transaksjoner_som_csv() {
    let t = TxRow {
        ts: "15.07.2026 10:00".to_string(),
        symbol: "EQNR.OL".to_string(),
        side: "KJØP".to_string(),
        qty: e8(10.0),
        price: e8(342.5),
        status: "FYLT".to_string(),
        broker: "paper".to_string(),
        note: "a;b".to_string(),
    };
    assert_eq!(transaksjonsbelop(&t), ("3 425".to_string(), Farge::Gronn));
    let csv = export_transactions_csv(&vec![t]);
    let linjer: Vec<&str> = csv.lines().collect();
    assert_eq!(linjer.len(), 2);
    assert!(linjer[1].contains("EQNR.OL"));
    assert!(linjer[1].contains("342,50") || linjer[1].contains("342.50"));
}

#[test]
fn innstillingsfilen() {
    assert!(innstillingsfil("mode = \"paper\"\n").ends_with("\n\nmode = \"paper\"\n"));
    assert_eq!(autostart_skript("C:\\b.exe"), "@echo off\r\nstart \"\" \"C:\\b.exe\"\r\n");
}
