use b_rs::config::{
    AutopilotCfg, BacktestCfg, Config, GoalCfg, MorganCfg, MultiCfg, NordnetCfg, NotifyCfg, RiskCfg, StrategyCfg, UnoXCfg,
};
use b_rs::json;
use b_rs::morgan::autopilot::{
    finn_puls, finn_trend, journal, pulsminutter, speider_filter, skriv_start, til_timer, Autopilot, Brems,
    Egne, Puls, Pulssteg,
};
use b_rs::morgan::kontekst::{council_context, market_context, portfolio_context, symbol_context};
use b_rs::morgan::{
    analyze, analyze_portfolio, analyze_symbol, autopilot_backends, autopilot_decide, backend, claude_kropp, council,
    laerdom, ollama_adresse, ollama_kropp,
    parse_autopilot_decision, parse_scout, self_review, tolk_claude, tolk_modeller, tolk_ollama, velg, AutopilotDecision,
    Backend,
};
use b_rs::state::{Flags, UiState};
use b_rs::types::{Position, Quote, Side};

fn e8(x: f64) -> i64 {
    (x * 1e8).round() as i64
}

fn e16(x: f64) -> i128 {
    i128::from(e8(x)) * 100_000_000
}

fn js(tekst: &str) -> json::Json {
    json::les(tekst).unwrap()
}

fn oppsett() -> Config {
    Config {
        mode: "paper".to_string(),
        broker: "paper".to_string(),
        poll_secs: 15,
        watchlist: vec!["EQNR.OL".to_string()],
        starting_cash: e8(100_000.0),
        paper_reset: false,
        base_currency: "NOK".to_string(),
        market_hours_only: false,
        db_path: "b-rs.db".to_string(),
        live_ok: false,
        strategy: StrategyCfg::default(),
        risk: RiskCfg::default(),
        ibkr: None,
        revolutx: None,
        nordnet: NordnetCfg::default(),
        notify: NotifyCfg::default(),
        backtest: BacktestCfg::default(),
        goal: GoalCfg::default(),
        benchmark: "^OSEAX".to_string(),
        morgan: MorganCfg::default(),
        uno_x: UnoXCfg::default(),
        multi: MultiCfg::default(),
    }
}

fn pilot() -> AutopilotCfg {
    AutopilotCfg {
        symbol: "EQNR.OL".to_string(),
        budget_kr: e8(1_000.0),
        max_trades_per_day: 2,
        max_day_loss_kr: e8(300.0),
        cooldown_min: 30,
        ..AutopilotCfg::default()
    }
}

fn puls(pris: f64, holdt: f64, kontanter: f64) -> Puls {
    Puls { pris: e8(pris), holdt: e8(holdt), andre: 0, kontanter: e16(kontanter) }
}

/// A Wednesday at noon in Oslo.
const ONSDAG: i64 = 1_784_109_600;

/// The Sunday after it.
const SONDAG: i64 = 1_784_455_200;

/// The name of the model in the cloud.
const MODELL: &str = "modell-4";

fn egne(a: &Autopilot, symbol: &str) -> Egne {
    *a.own.hent(symbol).unwrap()
}

fn order(side: Side, antall: f64) -> Option<(String, Side, i64)> {
    Some(("EQNR.OL".to_string(), side, e8(antall)))
}

fn kjop(kr: f64) -> AutopilotDecision {
    AutopilotDecision::Buy { amount_kr: e8(kr), reason: "grunn".to_string() }
}

fn selg(kr: f64) -> AutopilotDecision {
    AutopilotDecision::Sell { amount_kr: e8(kr), reason: "grunn".to_string() }
}

#[test]
fn kjop_innenfor_budsjett_og_kontanter() {
    let mut a = Autopilot::new();
    let h = a.utfor(&kjop(5_000.0), &pilot(), "EQNR.OL", puls(100.0, 0.0, 5_000.0), "10:00", 0);
    assert_eq!(h.ordre, order(Side::Buy, 10.0));
    assert_eq!(h.journal, "🟢 KJØP for 1000 kr @ 100 — grunn");
    assert_eq!(h.toast.unwrap(), "🤖 Daytrader: KJØP EQNR.OL for 1000 kr");
    assert_eq!(a.trades_today, 1);
    assert_eq!(egne(&a, "EQNR.OL"), Egne { antall: e8(10.0), snitt: e8(100.0) });
    // The budget is full.
    let h = a.utfor(&kjop(5_000.0), &pilot(), "EQNR.OL", puls(100.0, 10.0, 5_000.0), "10:05", 1);
    assert_eq!(h.ordre, None);
    assert_eq!(h.journal, "Ville kjøpt, men budsjettet er fullt — grunn");
    assert_eq!(a.trades_today, 1);
    // Never over the cash.
    let mut a = Autopilot::new();
    let h = a.utfor(&kjop(900.0), &pilot(), "EQNR.OL", puls(100.0, 0.0, 250.0), "10:00", 0);
    assert_eq!(h.ordre, order(Side::Buy, 2.0));
}

#[test]
fn salg_og_kjoletid() {
    let mut a = Autopilot::new();
    a.utfor(&kjop(1_000.0), &pilot(), "EQNR.OL", puls(100.0, 0.0, 5_000.0), "10:00", 0);
    // Nine tenths or more means all of it.
    let h = a.utfor(&selg(850.0), &pilot(), "EQNR.OL", puls(90.0, 10.0, 4_000.0), "11:00", 1_000);
    assert_eq!(h.ordre, order(Side::Sell, 10.0));
    assert_eq!(h.journal, "🔴 SELG for ca. 900 kr (-100 kr realisert) — grunn");
    assert_eq!(a.day_realized, e16(-100.0));
    assert_eq!(egne(&a, "EQNR.OL"), Egne { antall: 0, snitt: 0 });
    // After a loss, no purchase for half an hour.
    let h = a.utfor(&kjop(500.0), &pilot(), "EQNR.OL", puls(90.0, 0.0, 4_000.0), "11:05", 1_800_000_000_999);
    assert_eq!(h.journal, "Kjøletid etter tap — hopper over kjøp. (grunn)");
    let h = a.utfor(&kjop(500.0), &pilot(), "EQNR.OL", puls(90.0, 0.0, 4_000.0), "11:31", 1_800_000_001_000);
    assert_eq!(h.ordre, order(Side::Buy, 5.0));
    // With nothing held there is nothing to sell.
    let h = a.utfor(&selg(500.0), &pilot(), "EQNR.OL", puls(90.0, 0.0, 4_000.0), "12:00", 0);
    assert_eq!(h.journal, "Ville solgt, men eier ingenting — grunn");
}

#[test]
fn avvent_huskes() {
    let mut a = Autopilot::new();
    for i in 0..8 {
        let d = AutopilotDecision::Hold { reason: format!("r{i}") };
        let h = a.utfor(&d, &pilot(), "EQNR.OL", puls(100.0, 0.0, 1.0), "10:00", 0);
        assert_eq!(h.journal, format!("AVVENT — r{i}"));
        assert_eq!(h.ordre, None);
    }
    assert_eq!(a.last_reasons.len(), 6);
    assert_eq!(a.last_reasons[5], "10:00 AVVENT: r7");
    assert_eq!(a.trades_today, 0);
}

#[test]
fn ny_dag_gir_tilbakeblikk() {
    let mut a = Autopilot::new();
    let mut j = vec!["1".to_string(), "2".to_string(), "3".to_string()];
    assert!(a.begynn_dag("2026-07-15", &mut j).is_none());
    assert!(j.is_empty());
    a.trades_today = 2;
    a.day_realized = e16(-50.0);
    let mut j = vec!["1".to_string(), "2".to_string(), "3".to_string()];
    assert!(a.begynn_dag("2026-07-15", &mut j).is_none());
    assert_eq!(j.len(), 3);
    let o = a.begynn_dag("2026-07-16", &mut j).unwrap();
    assert_eq!(o.max_tokens, 400);
    assert!(o.user.contains("2026-07-15"));
    assert_eq!((a.trades_today, a.day_realized), (0, 0));
    assert_eq!(o.user, self_review("2026-07-15", e16(-50.0), &vec!["1".to_string(), "2".to_string(), "3".to_string()]).user);
    assert_eq!(laerdom(" a\nb "), "a b");
}

fn skjerm() -> UiState {
    let mut st = UiState::new("paper", "paper", false);
    st.quotes.sett(
        "EQNR.OL",
        Quote {
            symbol: "EQNR.OL".to_string(),
            last: e8(100.0),
            prev_close: e8(98.0),
            currency: "NOK".to_string(),
            ts: 0,
        },
    );
    st.cash = e16(500.0);
    st.positions = vec![Position {
        symbol: "EQNR.OL".to_string(),
        qty: e8(2.0),
        avg_price: e8(90.0),
        last: e8(100.0),
    }];
    st
}

#[test]
fn pulsen_spor_modellen() {
    let a = Autopilot::new();
    let st = skjerm();
    match a.pulsslag(&st, &Flags::default(), &pilot(), "EQNR.OL", &BacktestCfg::default(), Some(e8(0.126)), "lær", ONSDAG) {
        Pulssteg::Spor { kontekst, puls } => {
            assert_eq!(puls, Puls { pris: e8(100.0), holdt: e8(2.0), andre: 0, kontanter: e16(500.0) });
            let v = js(&kontekst);
            assert_eq!(v.felt_tekst("symbol"), Some("EQNR.OL"));
            assert_eq!(v.felt_belop("kurs"), Some(e8(100.0)));
            assert_eq!(v.felt_belop("ledig_budsjett_kr"), Some(e8(500.0)));
            assert_eq!(v.felt_belop("spread_pct_naa"), Some(e8(0.13)));
            assert_eq!(v.felt_belop("rundtur_kostnad_pct"), Some(e8(0.48)));
            assert_eq!(v.felt_tekst("min_laerdom_hittil"), Some("lær"));
            assert_eq!(v.felt_tekst("storbilde_1time_trend"), Some("flat/ukjent"));
            assert_eq!(v.felt("posisjon").unwrap().felt_belop("urealisert_kr"), Some(e8(20.0)));
        }
        annet => panic!("{annet:?}"),
    }
}

#[test]
fn pulsen_hviler() {
    let mut a = Autopilot::new();
    let mut st = skjerm();
    let slag = |a: &Autopilot, st: &UiState, f: &Flags| {
        a.pulsslag(st, f, &pilot(), "EQNR.OL", &BacktestCfg::default(), None, "", ONSDAG)
    };
    let ro = Flags::default();
    for f in [
        Flags { quit: false, killed: true, paused: false },
        Flags { quit: false, killed: false, paused: true },
    ] {
        assert!(matches!(slag(&a, &st, &f), Pulssteg::Ingenting));
    }
    a.trades_today = 2;
    match slag(&a, &st, &ro) {
        Pulssteg::Journal(t) => assert_eq!(t, "Dagens handelskvote er brukt — hviler til i morgen."),
        annet => panic!("{annet:?}"),
    }
    a.day_realized = e16(-300.0);
    match slag(&a, &st, &ro) {
        Pulssteg::Journal(t) => {
            assert_eq!(t, "🛑 Dagstap-bremsen slo inn (-300 kr) — hviler til i morgen.")
        }
        annet => panic!("{annet:?}"),
    }
    assert!(matches!(a.dagstap(0, &None), Brems::Nei));
    st.autopilot_status = Some("dagstap".to_string());
    assert!(matches!(slag(&a, &st, &ro), Pulssteg::Ingenting));
    let tom = UiState::new("paper", "paper", false);
    assert!(matches!(slag(&Autopilot::new(), &tom, &ro), Pulssteg::Ingenting));
}

#[test]
fn kontantene_regnes_om() {
    let mut st = skjerm();
    st.cash_currency = "USD".to_string();
    st.fx_rates.sett("USD", e8(10.0));
    assert_eq!(finn_puls(&st, &pilot(), "EQNR.OL").unwrap().kontanter, e16(5_000.0));
    assert!(finn_puls(&st, &pilot(), "X").is_none());
}

#[test]
fn journalen_beholder_hundre() {
    let mut st = skjerm();
    for i in 0..105 {
        journal(&mut st, "10:00", &format!("{i}"));
    }
    assert_eq!(st.autopilot_journal.len(), 100);
    assert_eq!(st.autopilot_journal[99], "10:00  104");
    assert_eq!(st.autopilot_status.unwrap(), "10:00 104");
}

#[test]
fn timer_trend_og_puls() {
    let l: Vec<i64> = (0..26).collect();
    assert_eq!(til_timer(&l), vec![11, 23, 25]);
    assert!(til_timer(&Vec::new()).is_empty());
    assert_eq!(finn_trend(&vec![1, 2]), "opp");
    assert_eq!(finn_trend(&vec![2, 1]), "ned");
    assert_eq!(finn_trend(&vec![1]), "flat/ukjent");
    assert_eq!(pulsminutter(&AutopilotCfg { interval_min: 1, ..pilot() }), 5);
    assert_eq!(pulsminutter(&AutopilotCfg { interval_min: 7, ..pilot() }), 7);
}

#[test]
fn speideren_lar_sjefen_sove() {
    assert_eq!(
        speider_filter(false, "flatt", 0).unwrap(),
        "🔍 Speider: rolig — flatt (sparer Anthropic-kallet)."
    );
    assert!(speider_filter(true, "", 0).is_none());
    assert!(speider_filter(false, "", 1).is_none());
}

#[test]
fn hjernene() {
    let cfg = MorganCfg { provider: "ollama".to_string(), ..MorganCfg::default() };
    let b = backend(&cfg, None).unwrap();
    assert_eq!(b.label(MODELL), "llama3.1:8b (lokalt via Ollama)");
    assert!(backend(&MorganCfg::default(), None).is_err());
    match backend(&MorganCfg::default(), Some("nøkkel")).unwrap() {
        Backend::Claude { api_key } => assert_eq!(api_key, "nøkkel"),
        annet => panic!("{annet:?}"),
    }
    let sjef = Backend::Claude { api_key: "hemmelig".to_string() };
    assert_eq!(sjef.label(MODELL), "modell-4 (Anthropic)");
    assert_eq!(Backend::Claude { api_key: String::new() }.label(MODELL), sjef.label(MODELL));
    let t = skriv_start(&pilot(), &sjef, &Some(b), MODELL);
    assert!(t.starts_with("🤖 Morgan Daytrader PÅ: EQNR.OL · budsjett 1000 kr · hvert 60. min · maks 2 handler/dag"));
    assert!(t.ends_with("llama3.1:8b (lokalt via Ollama) speider → modell-4 (Anthropic) beslutter."));
    assert!(!t.contains("hemmelig"));
}

#[test]
fn oppdragene_har_hver_sin_tekst() {
    let o = analyze_symbol("EQNR.OL", "{}");
    assert_eq!(o.user, "Gi meg et dypdykk i EQNR.OL.\n\nSanntidsdata fra appen min (JSON):\n{}");
    assert_eq!(o.max_tokens, 10_000);
    let p = analyze_portfolio("{}");
    assert_eq!(p.user, "Vurder porteføljen min.\n\nPorteføljedata fra appen min (JSON):\n{}");
    assert_eq!(p.max_tokens, 12_000);
    let r = council("{}");
    assert_eq!(r.user, "Her er dagens data (JSON):\n{}\n\nSkriv dagens rådslag.");
    assert_eq!(r.max_tokens, 8_000);
    assert_ne!(o.system, p.system);
    assert_ne!(p.system, r.system);
}

#[test]
fn sporsmaal_i_json() {
    let o = analyze("forsiktig", "{}");
    assert_eq!(
        o.user,
        "Min investeringsprofil:\nforsiktig\n\nSanntidsdata fra appen min (JSON):\n{}"
    );
    let v = js(&claude_kropp("modell-4", &o));
    assert_eq!(v.felt_tekst("model"), Some("modell-4"));
    assert_eq!(v.felt("max_tokens").unwrap().som_i64(), Some(16_000));
    assert_eq!(v.felt_tekst("system"), Some(o.system));
    let v = js(&ollama_kropp("llama", &autopilot_decide("{}")));
    assert_eq!(v.felt_tekst("model"), Some("llama"));
    assert_eq!(v.felt_liste("messages").len(), 2);
    assert_eq!(ollama_adresse("http://localhost:11434/"), "http://localhost:11434/api/chat");
}

#[test]
fn svar_fra_modellene() {
    assert_eq!(
        tolk_ollama(true, "200 OK", &js(r#"{"message":{"content":"hei"}}"#), "llama").unwrap(),
        "hei"
    );
    assert!(tolk_ollama(false, "404 Not Found", &js(r#"{"error":"borte"}"#), "llama").unwrap_err().contains("borte"));
    let svar = js(r#"{"content":[{"type":"text","text":"hei"}],"stop_reason":"end_turn"}"#);
    assert!(tolk_claude(true, "200 OK", &svar).unwrap().contains("hei"));
    let feil = js(r#"{"error":{"message":"kvote"}}"#);
    assert!(tolk_claude(false, "429 Too Many Requests", &feil).unwrap_err().contains("kvote"));
}

#[test]
fn beslutninger() {
    assert!(matches!(velg("KJOP", e8(1.0), ""), AutopilotDecision::Buy { .. }));
    assert!(matches!(velg("SELG", e8(1.0), ""), AutopilotDecision::Sell { .. }));
    assert!(matches!(velg("SELG", 0, ""), AutopilotDecision::Hold { .. }));
    assert!(parse_autopilot_decision("{\"belop_kr\": 1}").is_err());
    assert!(parse_autopilot_decision("} {").is_err());
    assert!(parse_scout("} {").0);
}

#[test]
fn bilder_av_markedet() {
    let st = skjerm();
    let v = js(&portfolio_context(&st, "2026-07-15"));
    assert!(v.felt("posisjoner").is_some());
    let v = js(&symbol_context(&st, "EQNR.OL", "2026-07-15", 0));
    assert_eq!(v.felt_tekst("symbol"), Some("EQNR.OL"));
    assert!(json::les(&market_context(&st, "2026-07-15")).is_some());
    assert!(council_context(&st, "2026-07-15", "lærdom").contains("lærdom"));
}

#[test]
fn daytraderens_hjerne() {
    let med = |provider: &str| {
        let mut cfg = oppsett();
        cfg.morgan.autopilot.provider = provider.to_string();
        cfg
    };
    let n = Some("nøkkel");
    // The family of the model is a word for it.
    let (sjef, speider) = autopilot_backends(&med("modell"), n, MODELL).unwrap();
    assert!(matches!(sjef, Backend::Claude { .. }));
    assert!(speider.is_none());
    let (sjef, speider) = autopilot_backends(&med("duo"), n, MODELL).unwrap();
    assert!(matches!(sjef, Backend::Claude { .. }));
    assert!(matches!(speider, Some(Backend::Ollama { .. })));
    assert!(matches!(autopilot_backends(&med("ollama"), None, MODELL).unwrap().0, Backend::Ollama { .. }));
    // Without a word of its own, and with one that is not known, it thinks as the adviser.
    for ord in ["", " ", "dans"] {
        let mut cfg = med(ord);
        cfg.morgan.provider = "ollama".to_string();
        for nokkel in [n, None] {
            assert!(matches!(autopilot_backends(&cfg, nokkel, MODELL).unwrap().0, Backend::Ollama { .. }));
        }
        cfg.morgan.provider = "modell".to_string();
        assert!(matches!(autopilot_backends(&cfg, n, MODELL).unwrap().0, Backend::Claude { .. }));
        assert!(autopilot_backends(&cfg, None, MODELL).unwrap_err().starts_with("Mangler API-nøkkel."));
    }
    assert_eq!(
        autopilot_backends(&med("modell"), None, MODELL).unwrap_err(),
        "modell-hjerne krever ANTHROPIC_API_KEY"
    );
    assert!(autopilot_backends(&med("duo"), None, MODELL).unwrap_err().starts_with("duo-modus krever ANTHROPIC_API_KEY"));
}

#[test]
fn modellen_i_skyen_velges() {
    let l = js(r#"{"data": [{"id": "m-liten-5"}, {}, {"id": "m-opus-5"}, {"id": "m-opus-4"}]}"#);
    assert_eq!(tolk_modeller(&l).unwrap(), "m-opus-5");
    assert_eq!(tolk_modeller(&js(r#"{"data": []}"#)), None);
}

#[test]
fn forste_blokk_gjelder() {
    let svar = r#"{"beslutning":"KJØP","belop_kr":500,"begrunnelse":"a"} eller {"beslutning":"AVVENT"}"#;
    assert_eq!(
        parse_autopilot_decision(svar).unwrap(),
        AutopilotDecision::Buy { amount_kr: e8(500.0), reason: "a".to_string() }
    );
    // The scout is read from the first brace to the last.
    let (interessant, hvorfor) = parse_scout(r#"svar: {"interessant": false, "hvorfor": "rolig }"} ferdig"#);
    assert!(!interessant);
    assert_eq!(hvorfor, "rolig }");
    assert_eq!(
        parse_scout(r#"{"interessant": false} {"interessant": false}"#),
        (true, "uklart speider-svar".to_string())
    );
}

#[test]
fn flere_symboler_deler_budsjettet() {
    let ap = AutopilotCfg { symbols: vec!["EQNR.OL".to_string(), "DNB.OL".to_string()], ..pilot() };
    let mut st = skjerm();
    let dnb = Quote {
        symbol: "DNB.OL".to_string(),
        last: e8(50.0),
        prev_close: e8(50.0),
        currency: "NOK".to_string(),
        ts: 0,
    };
    st.quotes.sett("DNB.OL", dnb);
    // Two shares of EQNR.OL at 100 kroner leave 800 of the 1000.
    let p = finn_puls(&st, &ap, "DNB.OL").unwrap();
    assert_eq!(p, Puls { pris: e8(50.0), holdt: 0, andre: e16(200.0), kontanter: e16(500.0) });
    st.cash = e16(5_000.0);
    let p = finn_puls(&st, &ap, "DNB.OL").unwrap();
    let mut a = Autopilot::new();
    let h = a.utfor(&kjop(5_000.0), &ap, "DNB.OL", p, "10:00", 0);
    assert_eq!(h.ordre, Some(("DNB.OL".to_string(), Side::Buy, e8(16.0))));
    assert_eq!(egne(&a, "DNB.OL"), Egne { antall: e8(16.0), snitt: e8(50.0) });
    assert!(a.own.hent("EQNR.OL").is_none());
}

#[test]
fn bare_egne_symboler_i_aapningstiden() {
    let a = Autopilot::new();
    let st = skjerm();
    let slag = |symbol: &str, naa: i64| {
        a.pulsslag(&st, &Flags::default(), &pilot(), symbol, &BacktestCfg::default(), None, "", naa)
    };
    assert!(matches!(slag("EQNR.OL", ONSDAG), Pulssteg::Spor { .. }));
    assert!(matches!(slag("EQNR.OL", SONDAG), Pulssteg::Ingenting));
    assert!(matches!(slag("DNB.OL", ONSDAG), Pulssteg::Ingenting));
}
