use b_rs::app::{
    bekreftet, benchmark_name, cash_currency, config_arg, effective_mode, gamle_kopier, is_newer_version,
    kopinavn, live_advarsel, med_symbol, papirmelding, skal_roteres, tast, tolk_utgivelse, use_tui,
    uses_paper, uten_konsoll, utgivelse_url, velg_megler, ventende_linjer, Meglervalg, Undermegler,
};
use b_rs::backtest::run;
use b_rs::belop::{fra_tekst, gang_del, kort, som_tekst};
use b_rs::broker::ibkr;
use b_rs::broker::multi::{kansellert, omregn};
use b_rs::broker::paper::PaperBroker;
use b_rs::broker::revolutx;
use b_rs::calendar::{gyldig_crumb, kommende, merknad, naar, parse_events};
use b_rs::config::{
    AutopilotCfg, BacktestCfg, Config, GoalCfg, IbkrCfg, MorganCfg, MultiCfg, NordnetCfg, NotifyCfg,
    RevolutXCfg, RiskCfg, StrategyCfg, UnoXCfg,
};
use b_rs::dato::Dato;
use b_rs::gui::innstillinger::{begrens, innstillingsfeil};
use b_rs::import::{decode, les_tekst};
use b_rs::json;
use b_rs::market::{build_row, oversikt, rsi, MarketRow, Snapshot, WeekRow};
use b_rs::marketdata::{
    chart, chart_url, er_aapent, kategori, kraken_sporring, parse_kraken_quote, parse_kraken_spread,
    parse_snapshot, prov_igjen,
    sok_uten_fyllord, sok_url, tolk_nyheter, tolk_sok, ventetid,
};
use b_rs::nordnet::{innlogging_kropp, kontostier, parse_position, Neste, Okt};
use b_rs::notify::{del_linjer, handle_command, les_hendelse, styre_emne, styre_url, Notifier, Sending};
use b_rs::order::stable_order;
use b_rs::pnl::{export_realized_csv, realized_fifo, Fill};
use b_rs::risk::{RiskManager, RiskVerdict};
use b_rs::state::{Alarm, Flags, LimitOrder, TxRow, UiState};
use b_rs::store::{er_fylt, format_ts, les_fill, les_posisjon, les_side, ordre_rad, AlarmRad, LimitRad};
use b_rs::strategy::build_named;
use b_rs::tabell::Tabell;
use b_rs::types::{Candle, Order, OrderRequest, OrderStatus, Position, Side};

fn e8(x: f64) -> i64 {
    (x * 1e8).round() as i64
}

fn e16(x: f64) -> i128 {
    i128::from(e8(x)) * 100_000_000
}

fn js(tekst: &str) -> json::Json {
    json::les(tekst).unwrap()
}

fn ordre(symbol: &str, side: Side, qty: f64, pris: f64) -> OrderRequest {
    OrderRequest {
        symbol: symbol.to_string(),
        side,
        qty: e8(qty),
        ref_price: e8(pris),
        note: "n".to_string(),
    }
}

fn oppsett() -> Config {
    Config {
        mode: "paper".to_string(),
        broker: "paper".to_string(),
        poll_secs: 15,
        watchlist: vec!["EQNR.OL".to_string()],
        starting_cash: e8(100_000.0),
        paper_reset: false,
        base_currency: "NOK".to_string(),
        market_hours_only: false,
        db_path: "b-rs.db".to_string(),
        live_ok: false,
        strategy: StrategyCfg::default(),
        risk: RiskCfg::default(),
        ibkr: None,
        revolutx: None,
        nordnet: NordnetCfg::default(),
        notify: NotifyCfg::default(),
        backtest: BacktestCfg::default(),
        goal: GoalCfg::default(),
        benchmark: "^OSEAX".to_string(),
        morgan: MorganCfg::default(),
        uno_x: UnoXCfg::default(),
        multi: MultiCfg::default(),
    }
}

fn ibkr_cfg() -> IbkrCfg {
    IbkrCfg {
        base_url: "https://localhost:5000/v1/api".to_string(),
        account: "U1".to_string(),
        accept_invalid_certs: true,
        limit_orders: false,
        limit_slippage_pct: 0,
        realtime_quotes: false,
    }
}

fn revolutx_cfg() -> RevolutXCfg {
    RevolutXCfg {
        base_url: "https://revx.revolut.com/api/1.0".to_string(),
        private_key_path: "k.pem".to_string(),
        quote_currency: "USD".to_string(),
    }
}

// --- Numbers and texts ------------------------------------------------------

#[test]
fn tall_leses_og_skrives() {
    assert_eq!(fra_tekst("342.5"), Some(e8(342.5)));
    assert_eq!(fra_tekst("-1e2"), Some(e8(-100.0)));
    // However long the text and however far the exponent.
    assert_eq!(fra_tekst("0e9000000000000000000"), Some(0));
    assert_eq!(fra_tekst("1e-9000000000000000000"), Some(0));
    assert_eq!(fra_tekst("1e9000000000000000000"), None);
    assert_eq!(fra_tekst(&format!("{}5", "0".repeat(1_500_000))), Some(e8(5.0)));
    assert_eq!(fra_tekst("tull"), None);
    assert_eq!(som_tekst(e8(342.5), 2), "342.50");
    assert_eq!(som_tekst(e8(-0.004), 2), "-0.00");
    assert_eq!(som_tekst(e8(2.5), 0), "2");
    assert_eq!(kort(e8(10.0)), "10");
    assert_eq!(kort(e8(342.5)), "342.5");
}

#[test]
fn json_frem_og_tilbake() {
    let v = js(r#"{"b": [1, 2.5, null, true, "æ\n"], "a": {}}"#);
    assert_eq!(json::skriv(&v), r#"{"a":{},"b":[1,2.5,null,true,"æ\n"]}"#);
    assert_eq!(json::skriv(&js(&json::skriv(&v))), json::skriv(&v));
    assert!(json::les("{").is_none());
    assert_eq!(v.felt_liste("b")[1].som_belop(), Some(e8(2.5)));
    assert_eq!(json::pen_tekst("{\"a\":1}"), "{\n  \"a\": 1\n}");
    assert_eq!(json::pen_tekst("tull"), "tull");
}

#[test]
fn datoer() {
    let d = Dato::fra_ymd(2026, 2, 28).unwrap();
    assert_eq!(d.som_tekst(), "2026-02-28");
    assert_eq!(d.pluss_dager(1).unwrap().som_tekst(), "2026-03-01");
    assert!(Dato::fra_ymd(2026, 2, 29).is_none());
    // Years outside the four digits carry a sign.
    assert_eq!(Dato::fra_ymd(0, 12, 31).unwrap().som_tekst(), "0000-12-31");
    assert_eq!(Dato::fra_ymd(9999, 12, 31).unwrap().som_tekst(), "9999-12-31");
    assert_eq!(Dato::fra_ymd(10_000, 1, 1).unwrap().som_tekst(), "+10000-01-01");
    assert_eq!(Dato::fra_ymd(-1, 12, 31).unwrap().som_tekst(), "-0001-12-31");
}

#[test]
fn stabil_orden() {
    assert_eq!(stable_order(&vec![3, 1, 3, 2]), vec![1, 3, 0, 2]);
}

#[test]
fn tabellen_er_ordnet() {
    let mut t: Tabell<i64> = Tabell::ny();
    t.sett("b", 1);
    t.sett("a", 2);
    t.sett("b", 3);
    assert_eq!(t.rader, vec![("a".to_string(), 2), ("b".to_string(), 3)]);
    assert_eq!(t.ta("a"), Some(2));
    assert_eq!(t.hent("a"), None);
    assert_eq!(t.hent("b"), Some(&3));
}

// --- Settings ---------------------------------------------------------------

#[test]
fn feil_i_oppsettet() {
    assert!(Config::parse(oppsett()).is_ok());
    let feil = |f: &dyn Fn(&mut Config)| {
        let mut c = oppsett();
        f(&mut c);
        Config::parse(c).unwrap_err()
    };
    assert_eq!(feil(&|c| c.watchlist.clear()), "watchlist kan ikke være tom");
    assert_eq!(feil(&|c| c.strategy.fast = 20), "strategy.fast må være mindre enn strategy.slow");
    let live = |c: &mut Config, b: &str| {
        c.mode = "live".to_string();
        c.broker = b.to_string();
    };
    assert_eq!(feil(&|c| live(c, "ibkr")), "mode=live med broker=ibkr krever [ibkr]-seksjon");
    assert_eq!(feil(&|c| live(c, "revolutx")), "mode=live med broker=revolutx krever [revolutx]-seksjon");
    let multi = |c: &mut Config, k: &str, a: &str| {
        live(c, "multi");
        c.multi.crypto = k.to_string();
        c.multi.stocks = a.to_string();
    };
    assert!(feil(&|c| multi(c, "paper", "paper")).starts_with("[multi] med både crypto=paper"));
    assert_eq!(feil(&|c| multi(c, "x", "paper")), "[multi] crypto må være \"paper\" eller \"revolutx\"");
    assert_eq!(feil(&|c| multi(c, "revolutx", "x")), "[multi] stocks må være \"paper\" eller \"ibkr\"");
    assert_eq!(
        feil(&|c| multi(c, "revolutx", "paper")),
        "[multi] crypto=revolutx i live-modus krever [revolutx]-seksjon"
    );
    assert_eq!(feil(&|c| multi(c, "paper", "ibkr")), "[multi] stocks=ibkr i live-modus krever [ibkr]-seksjon");
}

#[test]
fn megleren_velges() {
    let mut c = oppsett();
    assert!(matches!(velg_megler(&c), Ok(Meglervalg::En(Undermegler::Paper))));
    assert_eq!(effective_mode(&c), "paper");
    assert!(uses_paper(&c));
    c.mode = "live".to_string();
    c.broker = "ibkr".to_string();
    assert_eq!(velg_megler(&c).unwrap_err(), "[ibkr]-seksjon mangler i konfig");
    c.ibkr = Some(ibkr_cfg());
    assert!(matches!(velg_megler(&c), Ok(Meglervalg::En(Undermegler::Ibkr))));
    assert_eq!(effective_mode(&c), "live");
    c.broker = "multi".to_string();
    c.multi = MultiCfg { crypto: "revolutx".to_string(), stocks: "ibkr".to_string() };
    assert_eq!(velg_megler(&c).unwrap_err(), "[revolutx]-seksjon mangler i konfig");
    c.revolutx = Some(revolutx_cfg());
    match velg_megler(&c).unwrap() {
        Meglervalg::Multi { stocks, crypto, valuta } => {
            assert!(matches!(stocks, Undermegler::Ibkr));
            assert!(matches!(crypto, Undermegler::RevolutX));
            assert_eq!(valuta, "USD");
        }
        annet => panic!("{annet:?}"),
    }
    c.broker = "revolutx".to_string();
    assert_eq!(cash_currency(&c), "USD");
    c.broker = "dans".to_string();
    assert_eq!(velg_megler(&c).unwrap_err(), "ukjent megler: dans");
}

#[test]
fn live_maa_bekreftes() {
    let mut c = oppsett();
    assert!(live_advarsel(&c).is_none());
    c.mode = "live".to_string();
    assert!(live_advarsel(&c).is_some());
    assert!(bekreftet(" JA \n"));
    assert!(!bekreftet("ja"));
    // Without a console nobody can confirm.
    uten_konsoll(&mut c);
    assert_eq!(c.mode, "paper");
    c.mode = "live".to_string();
    c.live_ok = true;
    uten_konsoll(&mut c);
    assert_eq!(c.mode, "live");
}

#[test]
fn innstillinger_holdes_innenfor() {
    let mut c = oppsett();
    c.poll_secs = 1;
    c.starting_cash = 0;
    begrens(&mut c);
    assert_eq!(c.poll_secs, 10);
    assert_eq!(c.starting_cash, e8(1_000.0));
    assert!(innstillingsfeil(&c).is_none());
    c.strategy.fast = c.strategy.slow;
    assert_eq!(innstillingsfeil(&c), Some("SMA rask må være mindre enn treg — ikke lagret."));
}

#[test]
fn oppstart() {
    let a = |l: &[&str]| l.iter().map(|s| s.to_string()).collect::<Vec<String>>();
    assert!(use_tui(&a(&["--tui", "min.toml"])));
    assert_eq!(config_arg(&a(&["--tui", "min.toml"])).unwrap(), "min.toml");
    assert!(config_arg(&a(&["--tui"])).is_none());
    let c = oppsett();
    assert!(papirmelding(&c, Some((e16(100_000.0), 0))).is_none());
    assert!(papirmelding(&c, Some((e16(90_000.0), 2))).is_some());
    assert_eq!(ventende_linjer(0, 0).len(), 0);
    assert_eq!(
        ventende_linjer(2, 1),
        vec!["2 ventende limit-ordrer lastet fra forrige økt.", "1 spareavtaler aktive."]
    );
    assert_eq!(benchmark_name("^OSEAX"), "Oslo Børs");
    assert_eq!(benchmark_name("SPY"), "SPY");
    let mut w = a(&["A"]);
    med_symbol(&mut w, "A");
    med_symbol(&mut w, "B");
    assert_eq!(w, a(&["A", "B"]));
}

#[test]
fn taster() {
    let mut f = Flags::default();
    assert_eq!(tast('p', &mut f), Some("Strategi satt på pause."));
    assert_eq!(tast('p', &mut f), Some("Strategi gjenopptatt."));
    assert_eq!(tast('k', &mut f), None);
    assert!(f.killed);
    assert_eq!(tast('q', &mut f), None);
    assert!(f.quit);
    assert_eq!(f.status(), "STOPPET");
}

#[test]
fn versjoner_og_utgivelser() {
    assert!(is_newer_version("v1.10.0", "1.9.0"));
    assert!(is_newer_version("1.0.1", "1.0"));
    let v = js(r#"{"tag_name": "v2.0.0", "html_url": "https://x"}"#);
    let (tag, url, t) = tolk_utgivelse(&v, "1.0.0", "eier/b-rs").unwrap();
    assert_eq!((tag.as_str(), url.as_str()), ("v2.0.0", "https://x"));
    assert_eq!(t, "📥 Ny versjon tilgjengelig: v2.0.0 (du har v1.0.0).");
    assert!(tolk_utgivelse(&v, "2.0.0", "eier/b-rs").is_none());
    assert!(tolk_utgivelse(&js("{}"), "1.0.0", "eier/b-rs").is_none());
    assert_eq!(utgivelse_url("eier/b-rs"), "https://api.github.com/repos/eier/b-rs/releases/latest");
}

#[test]
fn sikkerhetskopier() {
    assert_eq!(kopinavn("b-rs", "2026-07-15"), "b-rs-2026-07-15.db");
    assert!(!skal_roteres(5_000_000));
    assert!(skal_roteres(u64::MAX));
    let l: Vec<String> = (10..26).map(|d| format!("b-rs-2026-07-{d}.db")).collect();
    let gamle = gamle_kopier(&l);
    assert_eq!(l.len() - gamle.len(), 14);
    assert_eq!(gamle, l[..gamle.len()].to_vec());
    // A file without a name before the ending is no copy.
    let mut med: Vec<String> = l[2..].to_vec();
    med.push(".db".to_string());
    med.push("notat.txt".to_string());
    assert!(gamle_kopier(&med).is_empty());
}

#[test]
fn nyere_enn_nyere_er_nyere() {
    let v = ["v0.9.9", "v1.0.0", "v1.0.1", "v1.2.0", "v2.0.0"];
    for (i, a) in v.iter().enumerate() {
        for (j, b) in v.iter().enumerate() {
            assert_eq!(is_newer_version(b, &a[1..]), j > i);
        }
    }
}

// --- Messages ---------------------------------------------------------------

#[test]
fn varsler() {
    let mut n = NotifyCfg::default();
    n.ntfy_topic = "emne".to_string();
    match Notifier::new(&n, None).unwrap().send("hei") {
        Sending::Ntfy { url, kropp } => {
            assert_eq!((url.as_str(), kropp.as_str()), ("https://ntfy.sh/emne", "hei"))
        }
        annet => panic!("{annet:?}"),
    }
    n.provider = "telegram".to_string();
    n.telegram_chat_id = "42".to_string();
    match Notifier::new(&n, Some("T")).unwrap().send("hei") {
        Sending::Telegram { url, kropp } => {
            assert_eq!(url, "https://api.telegram.org/botT/sendMessage");
            assert_eq!(js(&kropp).felt_tekst("chat_id"), Some("42"));
            assert!(kropp.contains("hei"));
        }
        annet => panic!("{annet:?}"),
    }
    assert!(Notifier::new(&n, None).unwrap_err().contains("TELEGRAM_BOT_TOKEN"));
    n.telegram_chat_id.clear();
    assert!(Notifier::new(&n, Some("T")).unwrap_err().contains("telegram_chat_id er tom"));
    n.provider = "ntfy".to_string();
    n.ntfy_topic.clear();
    assert!(Notifier::new(&n, None).unwrap_err().contains("ntfy_topic er tom"));
    n.provider = "due".to_string();
    assert!(Notifier::new(&n, None).unwrap_err().starts_with("ukjent varseltilbyder: due"));
}

#[test]
fn fjernstyring() {
    let mut n = NotifyCfg::default();
    assert_eq!(styre_emne(&n), None);
    n.ntfy_topic = "emne".to_string();
    assert_eq!(styre_emne(&n).unwrap(), "emne-styr");
    assert_eq!(styre_url(&n, "emne-styr"), "https://ntfy.sh/emne-styr/json");
    let (hele, rest) = del_linjer("a\nb\nc");
    assert_eq!((hele, rest.as_str()), (vec!["a".to_string(), "b".to_string()], "c"));
    assert_eq!(les_hendelse(r#"{"event":"message","message":"stopp"}"#).unwrap(), "stopp");
    assert_eq!(les_hendelse(r#"{"event":"open"}"#), None);
    let mut f = Flags::default();
    let (svar, logg) = handle_command(" stopp ", &mut f).unwrap();
    assert!(f.killed);
    assert!(logg.starts_with("📱 Fjernkommando: STOPP → "));
    assert!(logg.ends_with(svar));
    assert!(handle_command("pause", &mut f).is_some() && f.paused);
    assert!(handle_command("dans", &mut f).is_none());
    assert!(handle_command("Gjenoppta", &mut f).is_some() && !f.killed && !f.paused);
}

// --- Brokers ----------------------------------------------------------------

#[test]
fn papirmegleren_avviser() {
    let mut b = PaperBroker::new(e16(1_000.0), None, false);
    let o = b.place_order(ordre("X", Side::Buy, 11.0, 100.0), 7).unwrap();
    assert_eq!(o.status, OrderStatus::Rejected);
    assert_eq!(o.note, "n — avvist: ikke nok kontanter");
    assert_eq!((o.id.as_str(), o.created), ("P1", 7));
    let o = b.place_order(ordre("X", Side::Sell, 1.0, 100.0), 0).unwrap();
    assert_eq!((o.id.as_str(), o.note.as_str()), ("P2", "n — avvist: ikke nok aksjer"));
    assert_eq!(b.cash(), e16(1_000.0));
    // The mean of two purchases, and what a price is worth.
    b.place_order(ordre("X", Side::Buy, 1.0, 100.0), 0);
    b.place_order(ordre("X", Side::Buy, 1.0, 200.0), 0);
    b.on_quote("X", e8(300.0));
    let p = &b.positions()[0];
    assert_eq!((p.avg_price, p.last), (e8(150.0), e8(300.0)));
    b.place_order(ordre("X", Side::Sell, 2.0, 300.0), 0);
    assert!(b.positions().is_empty());
    assert_eq!(b.cash(), e16(1_300.0));
}

#[test]
fn papirmegleren_uten_antall() {
    let mut b = PaperBroker::new(e16(1_000.0), None, false);
    let o = b.place_order(ordre("X", Side::Buy, 0.0, 100.0), 0).unwrap();
    assert_eq!(o.status, OrderStatus::Filled);
    assert_eq!(b.cash(), e16(1_000.0));
    // A purchase of less than nothing gives money, and leaves a debt of shares.
    let o = b.place_order(ordre("Y", Side::Buy, -2.0, 100.0), 0).unwrap();
    assert_eq!(o.status, OrderStatus::Filled);
    assert_eq!(b.cash(), e16(1_200.0));
    let o = b.place_order(ordre("Z", Side::Sell, 1.0, 100.0), 0).unwrap();
    assert_eq!(o.status, OrderStatus::Rejected);
    assert_eq!(b.cash(), e16(1_200.0));
}

#[test]
fn multi_regner_om() {
    assert_eq!(omregn(e8(60_000.0), e8(10.0)), Some(e8(600_000.0)));
    assert_eq!(omregn(i64::MAX, e8(10.0)), None);
    assert_eq!(kansellert(None, None), None);
    assert!(kansellert(Some("borte"), None).unwrap().contains("borte"));
}

#[test]
fn ibkr_svar() {
    assert_eq!(ibkr::ibkr_symbol("EQNR.OL"), "EQNR");
    assert_eq!(ibkr::tolk_conid(&js(r#"[{"conid": "265598"}]"#), "AAPL"), Ok(265_598));
    assert_eq!(ibkr::tolk_conid(&js("[]"), "AAPL").unwrap_err(), "fant ingen IBKR-instrument for AAPL");
    assert_eq!(ibkr::tolk_conid(&js("[{}]"), "AAPL").unwrap_err(), "ugyldig conid for AAPL");
    let v = js(&ibkr::ordre_kropp(7, &ordre("AAPL", Side::Sell, 3.0, 1.0), false, 0));
    let o = &v.felt_liste("orders")[0];
    assert_eq!(o.felt_tekst("side"), Some("SELL"));
    assert_eq!(o.felt("conid").unwrap().som_i64(), Some(7));
    let sporsmaal = js(r#"[{"id": "abc", "message": ["sikker?"]}]"#);
    assert!(matches!(ibkr::neste_steg(&sporsmaal), ibkr::Steg::Bekreft(id) if id == "abc"));
    let svar = js(r#"[{"order_id": "99"}]"#);
    assert!(matches!(ibkr::neste_steg(&svar), ibkr::Steg::Ferdig));
    let o = ibkr::tolk_ordresvar(&svar, ordre("AAPL", Side::Buy, 1.0, 2.0), 5).unwrap();
    assert_eq!((o.id.as_str(), o.status, o.avg_price), ("99", OrderStatus::Submitted, e8(2.0)));
    assert_eq!(
        ibkr::tolk_ordresvar(&js("[]"), ordre("A", Side::Buy, 1.0, 2.0), 5).unwrap_err(),
        "tomt ordresvar fra IBKR"
    );
    assert_eq!(
        ibkr::tolk_ordresvar(&js("[{}]"), ordre("A", Side::Buy, 1.0, 2.0), 5).unwrap_err(),
        "ordre ikke bekreftet av IBKR"
    );
    assert_eq!(ibkr::tolk_kontanter(&js(r#"{"BASE": {"cashbalance": 12.5}}"#)), Ok(e8(12.5)));
    assert!(ibkr::tolk_kontanter(&js("{}")).is_err());
}

#[test]
fn ibkr_limitordrer() {
    let kropp = |side, limit| {
        let v = js(&ibkr::ordre_kropp(7, &ordre("AAPL", side, 3.0, 100.0), limit, e8(0.5)));
        let o = &v.felt_liste("orders")[0];
        (o.felt_tekst("orderType").unwrap().to_string(), o.felt_belop("price"))
    };
    assert_eq!(kropp(Side::Buy, true), ("LMT".to_string(), Some(e8(100.5))));
    assert_eq!(kropp(Side::Sell, true), ("LMT".to_string(), Some(e8(99.5))));
    assert_eq!(kropp(Side::Buy, false), ("MKT".to_string(), None));
}

#[test]
fn ibkr_sanntidskurs() {
    let pris = |s: &str| ibkr::tolk_sanntid(&js(s));
    assert_eq!(pris(r#"[{"conid": 7, "31": "168.42"}]"#), Some(e8(168.42)));
    assert_eq!(pris(r#"[{"31": "C168.5"}]"#), Some(e8(168.5)));
    assert_eq!(pris(r#"[{"31": 12.5}]"#), Some(e8(12.5)));
    // Without a subscription there is none.
    assert_eq!(pris(r#"[{"conid": 7}]"#), None);
    assert_eq!(pris(r#"[{"31": "0"}]"#), None);
    assert_eq!(pris("[]"), None);
}

#[test]
fn revolutx_svar() {
    let v = js(&revolutx::ordre_kropp("id1", &ordre("BTC-USD", Side::Buy, 0.5, 1.0)));
    assert_eq!(v.felt_tekst("client_order_id"), Some("id1"));
    assert_eq!(v.felt_tekst("side"), Some("buy"));
    let svar = js(r#"{"data": {"venue_order_id": "v1", "state": "filled"}}"#);
    let o = revolutx::tolk_ordresvar(&svar, ordre("BTC-USD", Side::Buy, 0.5, 1.0), 3).unwrap();
    assert_eq!((o.id.as_str(), o.status, o.created), ("v1", OrderStatus::Filled, 3));
    assert!(revolutx::tolk_ordresvar(&js("{}"), ordre("B", Side::Buy, 1.0, 1.0), 3).is_none());
    let v = js(r#"{"data": [{"venue_order_id": "a"}, {}, {"venue_order_id": "b"}]}"#);
    assert_eq!(revolutx::kanselleringer(&v), vec!["/orders/a", "/orders/b"]);
    let saldo = js(r#"[{"currency": "USD", "available": "12.5", "total": "12.5"},
        {"currency": "BTC", "available": "0.5", "total": "0.5"}]"#);
    assert_eq!(revolutx::tolk_kontanter(&saldo, "USD"), e8(12.5));
    let mut l = revolutx::tolk_beholdninger(&saldo, "USD");
    assert_eq!(l.len(), 1);
    assert_eq!((l[0].symbol.as_str(), l[0].qty), ("BTC-USD", e8(0.5)));
    assert!(revolutx::tickersporring(&l).starts_with("symbols="));
    revolutx::pris_beholdninger(&mut l, &js(r#"{"data": [{"symbol": "BTC/USD", "last_price": "60000"}]}"#));
    assert_eq!(l[0].last, e8(60_000.0));
}

#[test]
fn revolutx_adresser_og_nokler() {
    let par = revolutx::nokkelpar(&vec![7u8; 32]).unwrap();
    let b = revolutx::RevolutXBroker::new("https://revx.revolut.com/api/1.0/", "USD", &par.privat).unwrap();
    assert_eq!(b.origin, "https://revx.revolut.com");
    assert_eq!(b.base_path, "/api/1.0");
    let f = b.request("1", "GET", "/orders/active", "limit=10", "");
    assert_eq!(f.url, "https://revx.revolut.com/api/1.0/orders/active?limit=10");
    assert!(revolutx::RevolutXBroker::new("tull", "USD", &par.privat).is_err());
    assert!(revolutx::RevolutXBroker::new("https://x", "USD", "tull")
        .unwrap_err()
        .starts_with("ugyldig Ed25519-privatnøkkel (PKCS#8 PEM): "));
}

#[test]
fn nordnet_svar() {
    let v = js(r#"[{"accid": 1}, {"accno": 2}, {"x": 3}]"#);
    assert!(kontostier(&v).iter().all(|s| s.starts_with("/accounts/") && s.ends_with("/positions")));
    let p = parse_position(&js(
        r#"{"instrument": {"symbol": "EQNR", "name": "Equinor"}, "qty": 10, "market_value": {"value": 3425.5}}"#,
    ));
    assert_eq!((p.symbol.as_str(), p.name.as_str()), ("EQNR", "Equinor"));
    assert_eq!((p.qty, p.market_value), (e8(10.0), e8(3_425.5)));
    assert!(innlogging_kropp("ola", "p").contains("ola"));
    let mut o = Okt::ny();
    assert_eq!(o.begynn(), Neste::LoggInn);
    assert_eq!(o.innlogget(true), Neste::Hent);
    assert_eq!(o.feilet(), Neste::LoggInn);
    assert_eq!(o.feilet(), Neste::GiOpp);
    assert_eq!(o.innlogget(false), Neste::GiOpp);
}

// --- Markets ----------------------------------------------------------------

#[test]
fn yahoo_svar() {
    assert_eq!(
        chart_url("EQNR.OL", "1y", "1d"),
        "https://query1.finance.yahoo.com/v8/finance/chart/EQNR.OL?range=1y&interval=1d"
    );
    let v = js(r#"{"chart": {"result": [{"meta": {}}], "error": null}}"#);
    assert!(chart(&v, "X").unwrap().felt("meta").is_some());
    assert!(chart(&js(r#"{"chart": {"result": null}}"#), "X").is_err());
    assert!(prov_igjen(429) && prov_igjen(503) && !prov_igjen(404));
    assert_eq!(ventetid(u64::MAX), 0);
    let u = sok_url("olje & gass", "10", "0").unwrap();
    assert!(u.starts_with("https://query1.finance.yahoo.com/v1/finance/search?q=olje"));
    assert!(u.contains("%26") && u.contains("quotesCount=10"));
    assert_eq!(sok_uten_fyllord("equinor"), None);
    assert_eq!(kategori("EQUITY"), Some("Aksje"));
    assert_eq!(kategori("FUTURE"), None);
    assert_eq!(kraken_sporring("BTC-USD").unwrap(), ("XBTUSD".to_string(), "USD".to_string()));
    assert!(kraken_sporring("EQNR.OL").is_none());
    assert_eq!(
        parse_kraken_quote("B", "USD", &js(r#"{"error": [], "result": {"X": {"c": ["2.5"]}}}"#), 9).unwrap().ts,
        9
    );
}

#[test]
fn sok_og_nyheter() {
    let v = js(r#"{"quotes": [{"symbol": "EQNR.OL", "shortname": "Equinor", "quoteType": "EQUITY"},
        {"symbol": "X", "shortname": "X", "quoteType": "FUTURE"}]}"#);
    let l = tolk_sok(&v);
    assert_eq!(l.len(), 1);
    assert_eq!(l[0].0, "EQNR.OL");
    let v = js(r#"{"news": [
        {"title": "gammel", "publisher": "E24", "link": "l1", "providerPublishTime": 1},
        {"title": "ny", "publisher": "E24", "link": "l2", "providerPublishTime": 2}]}"#);
    let l = tolk_nyheter(&v);
    assert_eq!(l[0].title, "ny");
    assert_eq!(l[1].title, "gammel");
}

#[test]
fn borsene() {
    assert!(er_aapent("EQNR.OL", 0, 540) && !er_aapent("EQNR.OL", 0, 539));
    assert!(er_aapent("EQNR.OL", 0, 989) && !er_aapent("EQNR.OL", 0, 990));
    assert!(er_aapent("AAPL", 4, 570) && !er_aapent("AAPL", 5, 570));
    assert!(er_aapent("BTC-USD", 6, 0));
}

#[test]
fn oyeblikk_og_oversikt() {
    let v = js(r#"{"meta": {"regularMarketPrice": 10.0, "regularMarketVolume": 1000},
        "timestamp": [1, 2], "indicators": {"quote": [{"open": [9.0, 10.0], "high": [9.5, 10.5],
        "low": [8.5, 9.5], "close": [9.0, 10.0]}]}}"#);
    let s = parse_snapshot("X", &v).unwrap();
    assert_eq!((s.last, s.candles.len()), (e8(10.0), 2));
    let rad = |s: &str, omsetning: f64, bevegelse: f64| MarketRow {
        symbol: s.to_string(),
        name: s.to_string(),
        last: e8(1.0),
        day_pct: i128::from(e8(bevegelse)),
        week_pct: 0,
        turnover: e16(omsetning),
        range_pct: i128::from(e8(bevegelse)),
    };
    let uke = |s: &str, score| WeekRow {
        symbol: s.to_string(),
        name: s.to_string(),
        last: 0,
        week_pct: 0,
        rsi: 0,
        trend_up: true,
        range_pct: 0,
        score,
    };
    let o = oversikt(
        vec![rad("A", 10.0, 9.0), rad("B", 30.0, 1.0), rad("C", 20.0, 5.0)],
        vec![uke("A", -1), uke("B", 2)],
        Vec::new(),
        7,
    );
    let navn: Vec<&str> = o.most_traded.iter().map(|r| r.symbol.as_str()).collect();
    assert_eq!(navn, vec!["B", "C", "A"]);
    let navn: Vec<&str> = o.day_trade.iter().map(|r| r.symbol.as_str()).collect();
    assert_eq!(navn, vec!["C", "B"]);
    assert_eq!(o.week[0].symbol, "B");
    assert_eq!(o.updated, Some(7));
}

#[test]
fn bevegelsen_regnes_ogsaa_fra_en_negativ_kurs() {
    let lys = |c: f64| Candle { ts: 0, open: e8(c), high: e8(c), low: e8(c), close: e8(c) };
    let rad = |gammel: f64, ny: f64| {
        let mut candles = vec![lys(gammel); 7];
        candles.push(lys(ny));
        build_row("CL=F", "Olje", &Snapshot { last: e8(ny), volume: 0, candles }).unwrap()
    };
    assert_eq!(rad(10.0, 9.0).day_pct, i128::from(e8(-10.0)));
    assert_eq!(rad(-10.0, -9.0).day_pct, i128::from(e8(-10.0)));
    assert_eq!(rad(0.0, 9.0).day_pct, 0);
}

#[test]
fn produkter_som_er_for_store_deles_likevel() {
    let stor = 1_i128 << 126;
    assert_eq!(gang_del(stor, 8, 16), Some(stor / 2));
    assert_eq!(gang_del(-stor, stor, stor), Some(-stor));
    assert_eq!(gang_del(-7, 1, 2), Some(-3));
    assert_eq!(gang_del(stor, stor, 3), None);
}

#[test]
fn rsi_i_ytterkantene() {
    let opp: Vec<i64> = (1..20).map(|i| e8(f64::from(i))).collect();
    assert_eq!(rsi(&opp, 14), Some(e8(100.0)));
    assert_eq!(rsi(&opp[..5], 14), None);
    let v = [e8(1.0), e8(2.0), e8(1.0)];
    assert_eq!(rsi(&v, 2), Some(e8(50.0)));
}

#[test]
fn kalenderen() {
    let v = js(
        r#"{ "quoteSummary": { "result": [ { "calendarEvents": {
            "exDividendDate": { "raw": 2000000 }, "dividendDate": { "raw": 1000000 } } } ] } }"#,
    );
    let l = parse_events("X", "X", &v);
    // A field named 0 does for the first of a list.
    let o = js(r#"{ "quoteSummary": { "result": { "0": { "calendarEvents": {
            "earnings": { "earningsDate": { "0": { "raw": 3000000 } } } } } } } }"#);
    assert_eq!(parse_events("X", "X", &o)[0].date, 3_000_000);
    let k = kommende(&l, 1_000_000);
    assert_eq!(k.iter().map(|e| e.date).collect::<Vec<i64>>(), vec![1_000_000, 2_000_000]);
    assert!(kommende(&l, 100_000_000).is_empty());
    assert!(merknad(0).is_some() && merknad(1).is_none());
    assert!(gyldig_crumb("abc") && !gyldig_crumb("") && !gyldig_crumb("<html>"));
    assert_eq!(naar(0), "i dag");
    assert_eq!(naar(1), "i morgen");
    assert_eq!(naar(5), "om 5 dager");
}

// --- Files ------------------------------------------------------------------

#[test]
fn import_sier_hva_som_mangler() {
    let feil = |t: &str| les_tekst(t).unwrap_err();
    assert_eq!(feil("\n \n"), "tom fil");
    assert_eq!(feil("Transaksjonstype;x"), "fant ikke kolonnen Verdipapir");
    assert_eq!(feil("Transaksjonstype;Verdipapir"), "fant ikke kolonnen Antall");
    assert_eq!(feil("Transaksjonstype;Verdipapir;Antall"), "fant ikke kolonnen Kurs");
    assert_eq!(feil("Transaksjonstype;Verdipapir;Antall;Kurs"), "fant ikke Handelsdag/Bokføringsdag");
    let hode = "Transaksjonstype;Verdipapir;Antall;Kurs;Handelsdag\n";
    assert_eq!(
        feil(&format!("{hode}KJØPT;EQUINOR;1;2;tull")),
        "ugyldig dato «tull» på linje 2"
    );
    // The newest first in the file, the oldest first in the list; no number of
    // its own, so one is made of what the line holds.
    let l = les_tekst(&format!("{hode}SALG;EQUINOR;-1;3;02.06.2026\nkjøp;EQUINOR;1;2,5;2026-06-01")).unwrap();
    assert_eq!(l[0].ts_rfc3339, "2026-06-01T12:00:00+00:00");
    assert_eq!(l[0].id, "NN-2026-06-01-EQUINOR-KJØP-1-2.5");
    assert!(!l[1].is_buy);
    assert_eq!(l[1].qty, e8(1.0));
}

#[test]
fn tegnsett() {
    assert_eq!(decode(&[0xFF, 0xFE, 0xE6, 0x00]), "æ");
    assert_eq!(decode(&[0xFE, 0xFF, 0x00, 0xE6]), "æ");
    assert_eq!(decode("æ".as_bytes()), "æ");
    assert_eq!(decode(&[0x61, 0xFF]), "a\u{fffd}");
    assert_eq!(decode("blåbær 🫐".as_bytes()), "blåbær 🫐");
    // A pair is one character, half a pair is a mark, and an odd byte is dropped.
    for lav_forst in [true, false] {
        let fil = |enheter: &[u16]| -> Vec<u8> {
            let mut b: Vec<u8> = if lav_forst { vec![0xFF, 0xFE] } else { vec![0xFE, 0xFF] };
            for u in enheter {
                b.extend(if lav_forst { u.to_le_bytes() } else { u.to_be_bytes() });
            }
            b.push(0x41);
            b
        };
        let enheter: Vec<u16> = "blåbær 🫐".encode_utf16().collect();
        assert_eq!(decode(&fil(&enheter)), "blåbær 🫐");
        assert_eq!(decode(&fil(&[0xD83E, 0x61, 0xDED0])), "\u{fffd}a\u{fffd}");
    }
}

#[test]
fn rader_leses_tilbake() {
    let o = LimitOrder {
        symbol: "X".to_string(),
        side: Side::Sell,
        qty: 1,
        amount_kr: 2,
        level: 3,
    };
    let r = LimitRad::fra(&o);
    assert_eq!(r.side, "SELG");
    assert_eq!(r.les().side, Side::Sell);
    assert_eq!(r.les().level, 3);
    let a = Alarm { symbol: "X".to_string(), level: 4, above: true, triggered: false };
    let r = AlarmRad::fra(&a);
    assert_eq!((r.above, r.triggered), (1, 0));
    assert!(r.les().above && !r.les().triggered);
    assert_eq!(les_side("KJØP"), Side::Buy);
    assert_eq!(les_posisjon("X", 1, 2).last, 2);
    assert!(les_fill("t", "X", "KJØP", 1, 2).is_buy);
    assert!(!les_fill("t", "X", "SELG", 1, 2).is_buy);
    let ordre = Order {
        id: "P1".to_string(),
        symbol: "X".to_string(),
        side: Side::Buy,
        qty: 1,
        status: OrderStatus::Filled,
        avg_price: 2,
        created: 0,
        note: String::new(),
    };
    let r = ordre_rad(&ordre, "2026-07-15T10:00:00+00:00", "paper");
    assert!(er_fylt(&r));
    assert_eq!(format_ts(&r.ts), "15.07.2026 10:00");
    assert_eq!(format_ts("tull"), "tull");
}

#[test]
fn skatterapporten() {
    let f = |ts: &str, is_buy, price| Fill {
        ts_rfc3339: ts.to_string(),
        symbol: "X".to_string(),
        is_buy,
        qty: e8(10.0),
        price: e8(price),
    };
    let t = realized_fifo(&[
        f("2026-01-05T10:00:00+00:00", true, 100.0),
        f("2026-02-05T10:00:00+00:00", false, 120.0),
    ]);
    let csv = export_realized_csv(&t);
    assert!(csv.starts_with("År;Salgsdato;Symbol;Antall;Kjøpskurs;Salgskurs;Gevinst\n2026;"));
    assert!(csv.contains(";X;"));
    assert!(csv.trim_end().ends_with(";200.00") || csv.trim_end().ends_with(";200,00"));
}

// --- The screen, the rules and the tests on the past -------------------------

#[test]
fn skjermen_glemmer() {
    let mut st = UiState::new("paper", "paper", false);
    for i in 0..7 {
        st.toast(&format!("{i}"), i);
    }
    assert_eq!(st.toasts.len(), 5);
    assert_eq!(st.toasts[4].1, "6");
    st.rydd_toasts(1_000_000);
    assert!(st.toasts.is_empty());
    st.follow("X", 0);
    st.follow("X", 0);
    assert_eq!(st.watchlist, vec!["X"]);
    assert_eq!(st.logs[0].1, "X lagt til i watchlisten.");
    st.unfollow("X");
    assert!(st.watchlist.is_empty());
    st.push_equity(1, 2);
    assert_eq!(st.equity_history, vec![(1, 2)]);
    let tx = |ts: &str| TxRow {
        ts: ts.to_string(),
        symbol: String::new(),
        side: String::new(),
        qty: 0,
        price: 0,
        status: String::new(),
        broker: String::new(),
        note: String::new(),
    };
    st.push_transaction(tx("1"));
    st.push_transaction(tx("2"));
    assert_eq!(st.transactions[0].ts, "2");
}

#[test]
fn takten_nullstilles_etter_et_minutt() {
    let mut r = RiskManager::new(RiskCfg { max_orders_per_min: 1, ..RiskCfg::default() });
    r.observe_equity(e16(1_000.0));
    r.observe_equity(e16(5_000.0));
    assert_eq!(r.drawdown(e16(900.0)), e16(-100.0));
    let mut sjekk = |naa| r.check(e16(1.0), e16(1.0), e16(1_000.0), naa);
    assert!(matches!(sjekk(0), RiskVerdict::Cleared));
    match sjekk(60_000_000_000) {
        RiskVerdict::Blocked(t) => assert!(t.starts_with("ratebegrensning: ")),
        annet => panic!("{annet:?}"),
    }
    assert!(matches!(sjekk(60_000_000_001), RiskVerdict::Cleared));
    let mut r = RiskManager::new(RiskCfg::default());
    match r.check(e16(1.0), e16(30_000.0), 0, 0) {
        RiskVerdict::Blocked(t) => assert_eq!(t, "posisjonsverdi 30000 ville oversteget maks 25000"),
        annet => panic!("{annet:?}"),
    }
}

#[test]
fn backtest_med_tall() {
    let lys: Vec<Candle> = [10.0, 10.0, 11.0, 9.0]
        .iter()
        .enumerate()
        .map(|(i, c)| Candle { ts: i as i64, open: e8(*c), high: e8(*c), low: e8(*c), close: e8(*c) })
        .collect();
    let cfg = StrategyCfg { momentum_window: 2, ..StrategyCfg::default() };
    let uten = BacktestCfg { commission_pct: 0, slippage_pct: 0 };
    let r = run("X", &lys, "momentum", &cfg, &uten).unwrap();
    // Bought over ten at eleven, sold at nine.
    assert_eq!(r.trades.len(), 1);
    assert_eq!(r.wins(), 0);
    assert_eq!(r.trades[0].pnl_pct / 1_000_000, -1818);
    assert_eq!(r.return_pct / 1_000_000, -1818);
    assert_eq!(r.buy_hold_pct, i128::from(e8(-10.0)));
    assert_eq!(run("X", &lys, "dans", &cfg, &uten).unwrap_err(), "ukjent strategi: dans");
    assert_eq!(run("X", &[], "rsi", &cfg, &uten).unwrap_err(), "ingen historikk å teste på");
    // Without costs none are paid, and with them no day is worth more.
    assert_eq!(r.costs_paid, 0);
    assert_eq!(r.equity_curve.len(), lys.len());
    let med = BacktestCfg { commission_pct: e8(0.25), slippage_pct: e8(0.1) };
    let d = run("X", &lys, "momentum", &cfg, &med).unwrap();
    assert!(d.costs_paid > 0 && d.return_pct < r.return_pct);
    assert_eq!(d.buy_hold_pct, r.buy_hold_pct);
    assert_eq!(d.trades.len(), r.trades.len());
    assert!(d.trades.iter().zip(&r.trades).all(|(x, y)| (x.entry_ts, x.exit_ts) == (y.entry_ts, y.exit_ts)));
    assert!(d.equity_curve.iter().zip(&r.equity_curve).all(|(x, y)| x.0 == y.0 && x.1 <= y.1));
    assert!(d.max_drawdown_pct <= 0);
    assert!(build_named("dans", &cfg).is_err());
}

#[test]
fn backtest_paa_bittesmaa_kurser() {
    let lys: Vec<Candle> = [100_i64, 100, 110, 90]
        .iter()
        .enumerate()
        .map(|(i, c)| Candle { ts: i as i64, open: *c, high: *c, low: *c, close: *c })
        .collect();
    let cfg = StrategyCfg { momentum_window: 2, ..StrategyCfg::default() };
    let uten = BacktestCfg { commission_pct: 0, slippage_pct: 0 };
    let r = run("PEPE-USD", &lys, "momentum", &cfg, &uten).unwrap();
    assert_eq!(r.trades.len(), 1);
    assert_eq!((r.trades[0].entry, r.trades[0].exit), (110, 90));
    assert_eq!(r.return_pct / 1_000_000, -1818);
    // What the last purchase costs more is missing at the end.
    let med = BacktestCfg { commission_pct: e8(0.25), slippage_pct: e8(1.0) };
    let d = run("PEPE-USD", &lys, "momentum", &cfg, &med).unwrap();
    assert!(d.return_pct < r.return_pct);
}

#[test]
fn feilen_fra_kraken_er_en_liste() {
    let v = js(r#"{"error": ["EQuery:Unknown asset pair", 7]}"#);
    assert_eq!(
        parse_kraken_quote("BTC-USD", "USD", &v, 0).unwrap_err(),
        "Kraken: [String(\"EQuery:Unknown asset pair\"), Number(7)]"
    );
}

#[test]
fn autopiloten_arver_symbolet() {
    let a = AutopilotCfg { symbol: "X".to_string(), ..AutopilotCfg::default() };
    assert_eq!(a.active_symbols(), vec!["X"]);
    let p = Position { symbol: "X".to_string(), qty: e8(2.0), avg_price: e8(10.0), last: e8(12.0) };
    assert_eq!(p.market_value(), e16(24.0));
    assert_eq!(p.unrealized(), e16(4.0));
}

#[test]
fn ett_symbol_gir_samme_gevinst_blant_andre() {
    let f = |symbol: &str, is_buy, qty, price| Fill {
        ts_rfc3339: "2026-07-15T10:00:00+00:00".to_string(),
        symbol: symbol.to_string(),
        is_buy,
        qty: e8(qty),
        price: e8(price),
    };
    let ordrer = || {
        vec![
            f("A", true, 2.0, 10.0),
            f("B", true, 5.0, 1.0),
            f("A", true, 1.0, 20.0),
            f("B", false, 5.0, 2.0),
            f("A", false, 3.0, 30.0),
        ]
    };
    let alle = ordrer();
    let egne: Vec<Fill> = ordrer().into_iter().filter(|x| x.symbol == "A").collect();
    let gevinst = |l: &[Fill]| -> Vec<i128> {
        realized_fifo(l).iter().filter(|t| t.symbol == "A").map(|t| t.gain).collect()
    };
    assert_eq!(gevinst(&alle), vec![e16(40.0), e16(10.0)]);
    assert_eq!(gevinst(&egne), gevinst(&alle));
}

#[test]
fn kraken_spread() {
    let v = js(r#"{"error": [], "result": {"XXBTZUSD": {"a": ["101.0", "1"], "b": ["99.0", "1"]}}}"#);
    assert_eq!(parse_kraken_spread(&v), Some(e8(2.0)));
    assert_eq!(parse_kraken_spread(&js(r#"{"error": ["E"], "result": {}}"#)), None);
    assert_eq!(parse_kraken_spread(&js(r#"{"result": {"X": {"a": ["0", "1"], "b": ["1", "1"]}}}"#)), None);
    assert_eq!(parse_kraken_spread(&js(r#"{"result": {"X": {"a": ["2", "1"]}}}"#)), None);
}
