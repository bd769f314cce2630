//! Starting up: which brokers, what the log says first, versions, copies of the
//! database.
use vstd::prelude::*;

use crate::belop;
use crate::config::Config;
use crate::json;
use crate::json::Json;
use crate::number_text;
use crate::state::Flags;
use crate::text;
use crate::text::{chars_of, copy_text, holds, is_before, same, string_of, text_starts, text_trim, three, two};

verus! {

// ---------------------------------------------------------------------------
// Brokers
// ---------------------------------------------------------------------------

impl Config {
    /// Whether orders go to a real broker.
    pub open spec fn ekte(&self) -> bool {
        self.live() && self.broker@ != "paper"@
    }
}

/// What the screen calls the mode.
pub fn effective_mode(cfg: &Config) -> (r: &'static str)
    ensures
        r@ == (if cfg.ekte() {
            "live"@
        } else {
            "paper"@
        }),
{
    if cfg.is_live() && !same(cfg.broker.as_str(), "paper") {
        "live"
    } else {
        "paper"
    }
}

/// What the screen calls the broker.
pub open spec fn meglernavn(cfg: Config) -> Seq<char> {
    if !cfg.ekte() {
        "paper"@
    } else if cfg.broker@ == "multi"@ {
        cfg.multi.stocks@ + " (aksjer) + "@ + (cfg.multi.crypto@ + " (krypto)"@)
    } else {
        cfg.broker@
    }
}

pub fn broker_label(cfg: &Config) -> (r: String)
    ensures
        r@ == meglernavn(*cfg),
{
    if !cfg.is_live() || same(cfg.broker.as_str(), "paper") {
        "paper".to_owned()
    } else if same(cfg.broker.as_str(), "multi") {
        let b: String = two(cfg.multi.crypto.as_str(), " (krypto)");
        three(cfg.multi.stocks.as_str(), " (aksjer) + ", b.as_str())
    } else {
        copy_text(&cfg.broker)
    }
}

/// One broker.
#[derive(Debug, Clone, Copy, PartialEq, Eq, Structural)]
pub enum Undermegler {
    Paper,
    Ibkr,
    RevolutX,
}

/// The broker of a name, or why there is none.
pub open spec fn megler_av(cfg: Config, navn: Seq<char>) -> Result<Undermegler, Seq<char>> {
    if navn == "paper"@ {
        Ok(Undermegler::Paper)
    } else if navn == "ibkr"@ {
        if cfg.ibkr is Some {
            Ok(Undermegler::Ibkr)
        } else {
            Err("[ibkr]-seksjon mangler i konfig"@)
        }
    } else if navn == "revolutx"@ {
        if cfg.revolutx is Some {
            Ok(Undermegler::RevolutX)
        } else {
            Err("[revolutx]-seksjon mangler i konfig"@)
        }
    } else {
        Err("ukjent megler: "@ + navn)
    }
}

pub fn undermegler(cfg: &Config, navn: &str) -> (r: Result<Undermegler, String>)
    ensures
        (match megler_av(*cfg, navn@) {
            Ok(m) => r is Ok && r->Ok_0 == m,
            Err(e) => r is Err && r->Err_0@ == e,
        }),
{
    if same(navn, "paper") {
        Ok(Undermegler::Paper)
    } else if same(navn, "ibkr") {
        match &cfg.ibkr {
            Some(_) => Ok(Undermegler::Ibkr),
            None => Err("[ibkr]-seksjon mangler i konfig".to_owned()),
        }
    } else if same(navn, "revolutx") {
        match &cfg.revolutx {
            Some(_) => Ok(Undermegler::RevolutX),
            None => Err("[revolutx]-seksjon mangler i konfig".to_owned()),
        }
    } else {
        Err(two("ukjent megler: ", navn))
    }
}

/// What trades.
#[derive(Debug)]
pub enum Meglervalg {
    En(Undermegler),
    /// Two at a time, and the currency of the one for pairs; empty: that of the
    /// account.
    Multi { stocks: Undermegler, crypto: Undermegler, valuta: String },
}

/// The currency of the broker for pairs.
pub open spec fn kryptovaluta(cfg: Config) -> Seq<char> {
    if cfg.multi.crypto@ == "revolutx"@ && cfg.revolutx is Some {
        cfg.revolutx->0.quote_currency@
    } else {
        Seq::empty()
    }
}

/// What trades, by the settings. A simulation never reaches a real broker.
pub fn velg_megler(cfg: &Config) -> (r: Result<Meglervalg, String>)
    ensures
        !cfg.ekte() ==> r == Ok::<Meglervalg, String>(Meglervalg::En(Undermegler::Paper)),
        cfg.ekte() && cfg.broker@ != "multi"@ ==> (match megler_av(*cfg, cfg.broker@) {
            Ok(m) => r == Ok::<Meglervalg, String>(Meglervalg::En(m)),
            Err(e) => r is Err && r->Err_0@ == e,
        }),
        cfg.ekte() && cfg.broker@ == "multi"@ ==> (match (
            megler_av(*cfg, cfg.multi.stocks@),
            megler_av(*cfg, cfg.multi.crypto@),
        ) {
            (Err(e), _) => r is Err && r->Err_0@ == e,
            (Ok(_), Err(e)) => r is Err && r->Err_0@ == e,
            (Ok(s), Ok(c)) => match r {
                Ok(Meglervalg::Multi { stocks, crypto, valuta }) => stocks == s && crypto == c && valuta@
                    == kryptovaluta(*cfg),
                _ => false,
            },
        }),
{
    if !cfg.is_live() || same(cfg.broker.as_str(), "paper") {
        return Ok(Meglervalg::En(Undermegler::Paper));
    }
    if same(cfg.broker.as_str(), "multi") {
        let stocks: Undermegler = match undermegler(cfg, cfg.multi.stocks.as_str()) {
            Ok(m) => m,
            Err(e) => return Err(e),
        };
        let crypto: Undermegler = match undermegler(cfg, cfg.multi.crypto.as_str()) {
            Ok(m) => m,
            Err(e) => return Err(e),
        };
        let tom: String = string_of(&[]);
        assert(tom@ =~= Seq::empty());
        let valuta: String = if same(cfg.multi.crypto.as_str(), "revolutx") {
            match &cfg.revolutx {
                Some(x) => copy_text(&x.quote_currency),
                None => tom,
            }
        } else {
            tom
        };
        return Ok(Meglervalg::Multi { stocks, crypto, valuta });
    }
    match undermegler(cfg, cfg.broker.as_str()) {
        Ok(m) => Ok(Meglervalg::En(m)),
        Err(e) => Err(e),
    }
}

/// Settings that were accepted name brokers that are there.
pub proof fn law_godkjent_har_megler(cfg: Config)
    requires
        cfg.feil() is None,
        cfg.ekte(),
        cfg.broker@ == "ibkr"@ || cfg.broker@ == "revolutx"@ || cfg.broker@ == "multi"@,
    ensures
        cfg.broker@ != "multi"@ ==> megler_av(cfg, cfg.broker@) is Ok,
        cfg.broker@ == "multi"@ ==> megler_av(cfg, cfg.multi.stocks@) is Ok && megler_av(cfg, cfg.multi.crypto@) is Ok,
{
    reveal_strlit("paper");
    reveal_strlit("ibkr");
    reveal_strlit("revolutx");
    reveal_strlit("multi");
    assert("paper"@.len() == 5 && "ibkr"@.len() == 4 && "revolutx"@.len() == 8 && "multi"@.len() == 5);
    assert("paper"@[0] == 'p' && "multi"@[0] == 'm');
}

/// The currency of the cash: that of the real broker for pairs where it is the
/// only one, else empty for that of the account.
pub fn cash_currency(cfg: &Config) -> (r: String)
    ensures
        r@ == (if cfg.live() && cfg.broker@ == "revolutx"@ && cfg.revolutx is Some {
            cfg.revolutx->0.quote_currency@
        } else {
            Seq::empty()
        }),
{
    if cfg.is_live() && same(cfg.broker.as_str(), "revolutx") {
        if let Some(x) = &cfg.revolutx {
            return copy_text(&x.quote_currency);
        }
    }
    let tom: String = string_of(&[]);
    assert(tom@ =~= Seq::empty());
    tom
}

// ---------------------------------------------------------------------------
// What the log says first
// ---------------------------------------------------------------------------

/// Whether the paper portfolio is in use.
pub open spec fn papir(cfg: Config) -> bool {
    !cfg.live() || cfg.broker@ == "paper"@ || (cfg.broker@ == "multi"@ && (cfg.multi.stocks@ == "paper"@
        || cfg.multi.crypto@ == "paper"@))
}

pub fn uses_paper(cfg: &Config) -> (r: bool)
    ensures
        r == papir(*cfg),
{
    !cfg.is_live() || same(cfg.broker.as_str(), "paper") || (same(cfg.broker.as_str(), "multi") && (same(
        cfg.multi.stocks.as_str(),
        "paper",
    ) || same(cfg.multi.crypto.as_str(), "paper")))
}

/// Half of the smallest coin, the least that counts as a difference.
pub const HALVT_ORE: i128 = 50_000_000_000_000;

/// Whether a stored portfolio differs from a fresh one.
pub open spec fn i_bruk(kontanter: int, antall: nat, start: int) -> bool {
    antall > 0 || kontanter - start * 100_000_000 > HALVT_ORE || start * 100_000_000 - kontanter > HALVT_ORE
}

pub open spec fn gjenopprettet_tekst(kontanter: int, antall: nat) -> Seq<char> {
    "Papirportefølje gjenopprettet fra forrige økt: "@ + belop::verdi_tekst(kontanter, 0) + (" kr kontanter, "@
        + number_text::decimal(antall) + " posisjoner."@)
}

/// What the log says of the paper portfolio: that it was reset, or restored
/// where there is anything in it. `lagret` is its cash and how many positions.
pub fn papirmelding(cfg: &Config, lagret: Option<(i128, usize)>) -> (r: Option<String>)
    ensures
        r is Some == (papir(*cfg) && (cfg.paper_reset || (lagret matches Some(l) && i_bruk(
            l.0 as int,
            l.1 as nat,
            cfg.starting_cash as int,
        )))),
        r matches Some(t) ==> t@ == (if cfg.paper_reset {
            "Papirporteføljen er nullstilt (paper_reset = true)."@
        } else {
            gjenopprettet_tekst((lagret->0).0 as int, (lagret->0).1 as nat)
        }),
{
    if !uses_paper(cfg) {
        return None;
    }
    if cfg.paper_reset {
        return Some("Papirporteføljen er nullstilt (paper_reset = true).".to_owned());
    }
    match lagret {
        None => None,
        Some((kontanter, antall)) => {
            let start: i128 = cfg.starting_cash as i128 * 100_000_000;
            if antall > 0 || kontanter > start + HALVT_ORE || kontanter < start - HALVT_ORE {
                let kc: Vec<char> = belop::skriv(kontanter, 16, 0);
                let kt: String = string_of(kc.as_slice());
                let at: String = number_text::decimal_text(antall as u128);
                let b: String = three(" kr kontanter, ", at.as_str(), " posisjoner.");
                Some(three("Papirportefølje gjenopprettet fra forrige økt: ", kt.as_str(), b.as_str()))
            } else {
                None
            }
        },
    }
}

/// What the log says of what was kept from last time.
pub fn ventende_linjer(limit_ordrer: usize, spareavtaler: usize) -> (r: Vec<String>)
    ensures
        text::views(r@) == (if limit_ordrer > 0 {
            seq![number_text::decimal(limit_ordrer as nat) + " ventende limit-ordrer lastet fra forrige økt."@]
        } else {
            Seq::empty()
        }) + (if spareavtaler > 0 {
            seq![number_text::decimal(spareavtaler as nat) + " spareavtaler aktive."@]
        } else {
            Seq::empty()
        }),
{
    let mut ut: Vec<String> = Vec::new();
    if limit_ordrer > 0 {
        let n: String = number_text::decimal_text(limit_ordrer as u128);
        ut.push(two(n.as_str(), " ventende limit-ordrer lastet fra forrige økt."));
    }
    if spareavtaler > 0 {
        let n: String = number_text::decimal_text(spareavtaler as u128);
        ut.push(two(n.as_str(), " spareavtaler aktive."));
    }
    assert(text::views(ut@) =~= (if limit_ordrer > 0 {
        seq![number_text::decimal(limit_ordrer as nat) + " ventende limit-ordrer lastet fra forrige økt."@]
    } else {
        Seq::empty()
    }) + (if spareavtaler > 0 {
        seq![number_text::decimal(spareavtaler as nat) + " spareavtaler aktive."@]
    } else {
        Seq::empty()
    }));
    ut
}

/// What the index is called.
pub fn benchmark_name(symbol: &str) -> (r: String)
    ensures
        r@ == (if symbol@ == "^OSEAX"@ {
            "Oslo Børs"@
        } else {
            symbol@
        }),
{
    if same(symbol, "^OSEAX") {
        "Oslo Børs".to_owned()
    } else {
        symbol.to_owned()
    }
}

/// Makes sure that a symbol is followed, behind the others.
pub fn med_symbol(watchlist: &mut Vec<String>, symbol: &str)
    ensures
        text::views(final(watchlist)@) == (if text::views(old(watchlist)@).contains(symbol@) {
            text::views(old(watchlist)@)
        } else {
            text::views(old(watchlist)@).push(symbol@)
        }),
{
    if !holds(watchlist, symbol) {
        let ghost for_ = text::views(watchlist@);
        watchlist.push(symbol.to_owned());
        assert(text::views(watchlist@) =~= for_.push(symbol@));
    }
}

// ---------------------------------------------------------------------------
// The command line
// ---------------------------------------------------------------------------

/// The first argument that is no switch.
pub open spec fn forste_fil(l: Seq<Seq<char>>, i: int) -> Option<Seq<char>>
    decreases l.len() - i,
{
    if i < 0 || i >= l.len() {
        None
    } else if !text::starts(l[i], "--"@) {
        Some(l[i])
    } else {
        forste_fil(l, i + 1)
    }
}

/// The file of the settings that the arguments name.
pub fn config_arg(args: &Vec<String>) -> (r: Option<String>)
    ensures
        (match forste_fil(text::views(args@), 0) {
            Some(f) => r is Some && r->0@ == f,
            None => r is None,
        }),
{
    let ghost alle = text::views(args@);
    let mut i: usize = 0;
    while i < args.len()
        invariant
            i <= args@.len(),
            alle == text::views(args@),
            forste_fil(alle, 0) == forste_fil(alle, i as int),
        decreases args.len() - i,
    {
        assert(alle[i as int] == args@[i as int]@);
        if !text_starts(args[i].as_str(), "--") {
            return Some(copy_text(&args[i]));
        }
        i += 1;
    }
    None
}

/// Whether the terminal is asked for in place of the window.
pub fn use_tui(args: &Vec<String>) -> (r: bool)
    ensures
        r == text::views(args@).contains("--tui"@),
{
    holds(args, "--tui")
}

pub open spec fn advarsel(megler: Seq<char>) -> Seq<char> {
    "⚠️  MODUS ER 'live' — ordrer sendes til "@ + megler + " med EKTE PENGER."@
}

/// The question before real orders are sent, where they would be.
pub fn live_advarsel(cfg: &Config) -> (r: Option<String>)
    ensures
        r is Some == cfg.live(),
        r matches Some(t) ==> t@ == advarsel(cfg.broker@),
{
    if cfg.is_live() {
        Some(three("⚠️  MODUS ER 'live' — ordrer sendes til ", cfg.broker.as_str(), " med EKTE PENGER."))
    } else {
        None
    }
}

/// Only this answer lets real orders through.
pub fn bekreftet(svar: &str) -> (r: bool)
    ensures
        r == (text::trimmed(svar@) == "JA"@),
{
    let t: String = text_trim(svar);
    same(t.as_str(), "JA")
}

/// The window application has nowhere to ask: without leave in the settings it
/// falls back to simulation.
pub fn uten_konsoll(cfg: &mut Config)
    ensures
        final(cfg).mode@ == (if old(cfg).live() && !old(cfg).live_ok {
            "paper"@
        } else {
            old(cfg).mode@
        }),
        final(cfg).mode@ == modus_uten_konsoll(*old(cfg)),
        *final(cfg) == (Config { mode: final(cfg).mode, ..*old(cfg) }),
{
    if cfg.is_live() && !cfg.live_ok {
        cfg.mode = "paper".to_owned();
    }
}

/// What a key does in the terminal: the lamps after it, and what the log says.
pub fn tast(c: char, flags: &mut Flags) -> (r: Option<&'static str>)
    ensures
        *final(flags) == (if c == 'q' {
            Flags { quit: true, ..*old(flags) }
        } else if c == 'k' {
            Flags { killed: !old(flags).killed, ..*old(flags) }
        } else if c == 'p' {
            Flags { paused: !old(flags).paused, ..*old(flags) }
        } else {
            *old(flags)
        }),
        *final(flags) == tastet(*old(flags), c),
        r is Some == (c == 'p'),
        r matches Some(t) ==> t@ == (if old(flags).paused {
            "Strategi gjenopptatt."@
        } else {
            "Strategi satt på pause."@
        }),
{
    if c == 'q' {
        flags.quit = true;
        None
    } else if c == 'k' {
        flags.killed = !flags.killed;
        None
    } else if c == 'p' {
        let var: bool = flags.paused;
        flags.paused = !var;
        if var {
            Some("Strategi gjenopptatt.")
        } else {
            Some("Strategi satt på pause.")
        }
    } else {
        None
    }
}

// ---------------------------------------------------------------------------
// Versions
// ---------------------------------------------------------------------------

/// The numbers among the parts.
pub open spec fn tallene(l: Seq<Seq<char>>) -> Seq<nat>
    decreases l.len(),
{
    if l.len() == 0 {
        Seq::empty()
    } else {
        match number_text::at_most(number_text::nat_of(l.last()), u64::MAX as nat) {
            Some(n) => tallene(l.drop_last()).push(n),
            None => tallene(l.drop_last()),
        }
    }
}

/// The numbers of a version such as `v1.2.3`.
pub open spec fn versjon(s: Seq<char>) -> Seq<nat> {
    tallene(text::split_on(text::strip_start(s, 'v'), '.'))
}

/// Whether a version comes after another: by the first number that differs, or
/// by being longer.
pub open spec fn etter(a: Seq<nat>, b: Seq<nat>) -> bool
    decreases a.len(),
{
    if a.len() == 0 {
        false
    } else if b.len() == 0 {
        true
    } else if a[0] == b[0] {
        etter(a.skip(1), b.skip(1))
    } else {
        a[0] > b[0]
    }
}

/// Of two versions at most one is newer, and none where they are the same. What
/// is newer than a version is newer than all that it is newer than.
pub proof fn law_nyere_er_en_orden(a: Seq<nat>, b: Seq<nat>, c: Seq<nat>)
    ensures
        etter(a, b) ==> !etter(b, a) && a != b,
        a != b ==> etter(a, b) || etter(b, a),
        etter(a, b) && etter(b, c) ==> etter(a, c),
    decreases a.len(),
{
    if a.len() > 0 && b.len() > 0 && c.len() > 0 && a[0] == b[0] && b[0] == c[0] {
        law_nyere_er_en_orden(a.skip(1), b.skip(1), c.skip(1));
        if a.skip(1) == b.skip(1) {
            assert(a =~= seq![a[0]] + a.skip(1));
            assert(b =~= seq![b[0]] + b.skip(1));
        }
    } else if a.len() > 0 && b.len() > 0 && a[0] == b[0] {
        law_nyere_er_en_orden(a.skip(1), b.skip(1), b.skip(1));
        if a.skip(1) == b.skip(1) {
            assert(a =~= seq![a[0]] + a.skip(1));
            assert(b =~= seq![b[0]] + b.skip(1));
        }
    } else if a.len() == 0 && b.len() == 0 {
        assert(a =~= b);
    }
}

pub open spec fn naturlige(l: Seq<u64>) -> Seq<nat> {
    Seq::new(l.len(), |i: int| l[i] as nat)
}

fn les_versjon(s: &str) -> (r: Vec<u64>)
    ensures
        naturlige(r@) == versjon(s@),
{
    let t: String = text::without_start(s, 'v');
    let cs: Vec<char> = chars_of(t.as_str());
    let deler: Vec<Vec<char>> = text::split(cs.as_slice(), '.');
    let ghost alle = text::seqs(deler@);
    let mut ut: Vec<u64> = Vec::new();
    let mut i: usize = 0;
    assert(alle.take(0) =~= Seq::empty());
    assert(naturlige(ut@) =~= Seq::empty());
    while i < deler.len()
        invariant
            i <= deler@.len(),
            alle == text::seqs(deler@),
            naturlige(ut@) == tallene(alle.take(i as int)),
        decreases deler.len() - i,
    {
        proof {
            assert(alle.take(i + 1).drop_last() =~= alle.take(i as int));
            assert(alle.take(i + 1).last() == deler@[i as int]@);
        }
        let ghost for_ = naturlige(ut@);
        if let Some(n) = number_text::read_u64(deler[i].as_slice()) {
            ut.push(n);
            assert(naturlige(ut@) =~= for_.push(n as nat));
        }
        i += 1;
    }
    assert(alle.take(i as int) =~= alle);
    ut
}

/// Whether `tag` is a newer version than `current`, number by number.
pub fn is_newer_version(tag: &str, current: &str) -> (r: bool)
    ensures
        r == (versjon(tag@).len() > 0 && versjon(current@).len() > 0 && etter(versjon(tag@), versjon(current@))),
{
    let a: Vec<u64> = les_versjon(tag);
    let b: Vec<u64> = les_versjon(current);
    let ghost x = naturlige(a@);
    let ghost y = naturlige(b@);
    if a.len() == 0 || b.len() == 0 {
        return false;
    }
    let mut i: usize = 0;
    assert(x.skip(0) =~= x);
    assert(y.skip(0) =~= y);
    while i < a.len() && i < b.len() && a[i] == b[i]
        invariant
            i <= a@.len(),
            i <= b@.len(),
            x == naturlige(a@),
            y == naturlige(b@),
            etter(x, y) == etter(x.skip(i as int), y.skip(i as int)),
        decreases a.len() - i,
    {
        assert(x.skip(i as int).skip(1) =~= x.skip(i + 1));
        assert(y.skip(i as int).skip(1) =~= y.skip(i + 1));
        i += 1;
    }
    if i >= a.len() {
        false
    } else if i >= b.len() {
        true
    } else {
        a[i] > b[i]
    }
}

/// Where the newest release of a repository is asked for.
pub fn utgivelse_url(repo: &str) -> (r: String)
    ensures
        r@ == "https://api.github.com/repos/"@ + repo@ + "/releases/latest"@,
{
    three("https://api.github.com/repos/", repo, "/releases/latest")
}

/// Where the releases of a repository are found.
pub open spec fn utgivelser(repo: Seq<char>) -> Seq<char> {
    "https://github.com/"@ + repo + "/releases"@
}

/// A newer release: its tag, where it is, and what the log says.
pub fn tolk_utgivelse(v: &Json, current: &str, repo: &str) -> (r: Option<(String, String, String)>)
    ensures
        (match v@.felt_tekst("tag_name"@) {
            None => r is None,
            Some(tag) => {
                let nyere = versjon(tag).len() > 0 && versjon(current@).len() > 0 && etter(
                    versjon(tag),
                    versjon(current@),
                );
                &&& r is Some == nyere
                &&& r matches Some(u) ==> u.0@ == tag && u.1@ == (match v@.felt_tekst("html_url"@) {
                    Some(t) => t,
                    None => utgivelser(repo@),
                }) && u.2@ == "📥 Ny versjon tilgjengelig: "@ + tag + (" (du har v"@ + current@ + ")."@)
            },
        }),
{
    let tag: &str = match v.felt_tekst("tag_name") {
        Some(t) => t,
        None => return None,
    };
    if !is_newer_version(tag, current) {
        return None;
    }
    let url: String = match v.felt_tekst("html_url") {
        Some(t) => t.to_owned(),
        None => three("https://github.com/", repo, "/releases"),
    };
    let b: String = three(" (du har v", current, ").");
    Some((tag.to_owned(), url, three("📥 Ny versjon tilgjengelig: ", tag, b.as_str())))
}

// ---------------------------------------------------------------------------
// Files
// ---------------------------------------------------------------------------

/// How long the log grows before it is set aside.
pub const STORSTE_LOGG: u64 = 5_000_000;

pub fn skal_roteres(lengde: u64) -> (r: bool)
    ensures
        r == (lengde > STORSTE_LOGG),
{
    lengde > STORSTE_LOGG
}

/// The name of the copy of a database on a day.
pub fn kopinavn(stamme: &str, dato: &str) -> (r: String)
    ensures
        r@ == stamme@ + "-"@ + (dato@ + ".db"@),
{
    let b: String = two(dato, ".db");
    three(stamme, "-", b.as_str())
}

/// How many copies are kept.
pub const KOPIER: usize = 14;

/// Where the first in order stands.
pub open spec fn forst_i_rekken(l: Seq<Seq<char>>) -> int
    decreases l.len(),
{
    if l.len() <= 1 {
        0
    } else {
        let k = forst_i_rekken(l.drop_last());
        if text::before(l.last(), l[k]) {
            l.len() - 1
        } else {
            k
        }
    }
}

/// The copies that are deleted, the first in order first, until few enough are
/// left.
pub open spec fn slettes(l: Seq<Seq<char>>, beholdes: nat) -> Seq<Seq<char>>
    decreases l.len(),
{
    if l.len() <= beholdes {
        Seq::empty()
    } else {
        let k = forst_i_rekken(l);
        if 0 <= k < l.len() {
            seq![l[k]] + slettes(l.remove(k), beholdes)
        } else {
            Seq::empty()
        }
    }
}

/// The copies that are left.
pub open spec fn beholdt(l: Seq<Seq<char>>, n: nat) -> Seq<Seq<char>>
    decreases l.len(),
{
    let k = forst_i_rekken(l);
    if l.len() <= n || k < 0 || k >= l.len() {
        l
    } else {
        beholdt(l.remove(k), n)
    }
}

proof fn lemma_forst(l: Seq<Seq<char>>)
    requires
        l.len() > 0,
    ensures
        0 <= forst_i_rekken(l) < l.len(),
        forall|i: int| 0 <= i < l.len() ==> !text::before(#[trigger] l[i], l[forst_i_rekken(l)]),
    decreases l.len(),
{
    if l.len() > 1 {
        let d = l.drop_last();
        lemma_forst(d);
        let k = forst_i_rekken(d);
        assert(d[k] == l[k]);
        assert forall|i: int| 0 <= i < l.len() implies !text::before(#[trigger] l[i], l[forst_i_rekken(l)]) by {
            if i < d.len() {
                assert(d[i] == l[i]);
                if text::before(l.last(), l[k]) && text::before(l[i], l.last()) {
                    text::law_before_transitive(l[i], l.last(), l[k]);
                }
            } else {
                text::law_before_total(l.last(), l.last());
                if text::before(l.last(), l[k]) {
                    assert(l[i] == l.last());
                }
            }
        }
    } else {
        text::law_before_total(l[0], l[0]);
    }
}

/// At most so many copies are left, and no copy that is left is before one that
/// is deleted.
pub proof fn law_nyeste_beholdes(l: Seq<Seq<char>>, n: nat)
    ensures
        beholdt(l, n).len() <= n,
        beholdt(l, n).len() + slettes(l, n).len() == l.len(),
        forall|i: int| 0 <= i < beholdt(l, n).len() ==> l.contains(#[trigger] beholdt(l, n)[i]),
        forall|i: int, j: int|
            0 <= i < beholdt(l, n).len() && 0 <= j < slettes(l, n).len() ==> !text::before(
                #[trigger] beholdt(l, n)[i],
                #[trigger] slettes(l, n)[j],
            ),
    decreases l.len(),
{
    if l.len() > n {
        lemma_forst(l);
        let k = forst_i_rekken(l);
        let rest = l.remove(k);
        law_nyeste_beholdes(rest, n);
        assert forall|x: Seq<char>| rest.contains(x) implies l.contains(x) by {
            let i = choose|i: int| 0 <= i < rest.len() && rest[i] == x;
            if i < k {
                assert(l[i] == x);
            } else {
                assert(l[i + 1] == x);
            }
        }
        assert forall|i: int, j: int|
            0 <= i < beholdt(l, n).len() && 0 <= j < slettes(l, n).len() implies !text::before(
            #[trigger] beholdt(l, n)[i],
            #[trigger] slettes(l, n)[j],
        ) by {
            let b = beholdt(rest, n)[i];
            assert(rest.contains(b));
            assert(l.contains(b));
            if j == 0 {
                let m = choose|m: int| 0 <= m < l.len() && l[m] == b;
                assert(!text::before(l[m], l[k]));
            } else {
                assert(slettes(l, n)[j] == slettes(rest, n)[j - 1]);
            }
        }
    } else {
        assert forall|i: int| 0 <= i < beholdt(l, n).len() implies l.contains(#[trigger] beholdt(l, n)[i]) by {
            assert(l[i] == beholdt(l, n)[i]);
        }
    }
}

fn finn_forst(l: &Vec<String>) -> (r: usize)
    requires
        l@.len() > 0,
    ensures
        r < l@.len(),
        r == forst_i_rekken(text::views(l@)),
{
    let ghost alle = text::views(l@);
    let mut k: usize = 0;
    let mut i: usize = 1;
    while i < l.len()
        invariant
            1 <= i <= l@.len(),
            k < i,
            alle == text::views(l@),
            k == forst_i_rekken(alle.take(i as int)),
        decreases l.len() - i,
    {
        proof {
            assert(alle.take(i + 1).drop_last() =~= alle.take(i as int));
            assert(alle.take(i + 1).last() == l@[i as int]@);
            assert(alle.take(i + 1)[k as int] == l@[k as int]@);
        }
        if is_before(l[i].as_str(), l[k].as_str()) {
            k = i;
        }
        i += 1;
    }
    assert(alle.take(i as int) =~= alle);
    k
}

/// The names that are copies of databases.
pub open spec fn er_kopi(s: Seq<char>) -> bool {
    s.len() > 3 && s.skip(s.len() - 3) == ".db"@
}

pub open spec fn kopier(l: Seq<Seq<char>>) -> Seq<Seq<char>>
    decreases l.len(),
{
    if l.len() == 0 {
        l
    } else if er_kopi(l.last()) {
        kopier(l.drop_last()).push(l.last())
    } else {
        kopier(l.drop_last())
    }
}

fn sjekk_kopi(s: &str) -> (r: bool)
    ensures
        r == er_kopi(s@),
{
    let cs: Vec<char> = chars_of(s);
    let n: usize = cs.len();
    if n <= 3 {
        return false;
    }
    let hale: Vec<char> = text::slice(cs.as_slice(), n - 3, n);
    assert(hale@ =~= s@.skip(s@.len() - 3));
    let t: String = string_of(hale.as_slice());
    same(t.as_str(), ".db")
}

/// The files of the folder of copies that are to be deleted.
pub fn gamle_kopier(filer: &Vec<String>) -> (r: Vec<String>)
    ensures
        text::views(r@) == slettes(kopier(text::views(filer@)), KOPIER as nat),
{
    let ghost alle = text::views(filer@);
    let mut l: Vec<String> = Vec::new();
    let mut i: usize = 0;
    assert(alle.take(0) =~= Seq::empty());
    assert(text::views(l@) =~= Seq::empty());
    while i < filer.len()
        invariant
            i <= filer@.len(),
            alle == text::views(filer@),
            text::views(l@) == kopier(alle.take(i as int)),
        decreases filer.len() - i,
    {
        proof {
            assert(alle.take(i + 1).drop_last() =~= alle.take(i as int));
            assert(alle.take(i + 1).last() == filer@[i as int]@);
        }
        let ghost for_ = text::views(l@);
        if sjekk_kopi(filer[i].as_str()) {
            l.push(copy_text(&filer[i]));
            assert(text::views(l@) =~= for_.push(filer@[i as int]@));
        }
        i += 1;
    }
    assert(alle.take(i as int) =~= alle);
    let ghost hele = text::views(l@);
    let mut ut: Vec<String> = Vec::new();
    assert(text::views(ut@) + slettes(hele, KOPIER as nat) =~= slettes(hele, KOPIER as nat));
    while l.len() > KOPIER
        invariant
            text::views(ut@) + slettes(text::views(l@), KOPIER as nat) == slettes(hele, KOPIER as nat),
        decreases l.len(),
    {
        let ghost v = text::views(l@);
        let ghost u = text::views(ut@);
        let k: usize = finn_forst(&l);
        let s: String = l.remove(k);
        assert(text::views(l@) =~= v.remove(k as int));
        ut.push(s);
        assert(text::views(ut@) =~= u.push(v[k as int]));
        assert(text::views(ut@) + slettes(text::views(l@), KOPIER as nat) =~= u + slettes(v, KOPIER as nat));
    }
    assert(text::views(ut@) + slettes(text::views(l@), KOPIER as nat) =~= text::views(ut@));
    ut
}

/// The first number that differs decides between two versions, and of two that
/// agree as far as the shorter goes the longer is the newer.
pub proof fn law_nyere_versjon(felles: Seq<nat>, a: Seq<nat>, b: Seq<nat>, x: nat, y: nat)
    ensures
        x > y ==> etter(felles + seq![x] + a, felles + seq![y] + b),
        x > y ==> !etter(felles + seq![y] + b, felles + seq![x] + a),
        etter(felles + seq![x] + a, felles),
        !etter(felles, felles + a),
    decreases felles.len(),
{
    let p = felles + seq![x] + a;
    let q = felles + seq![y] + b;
    if felles.len() > 0 {
        let f = felles.skip(1);
        law_nyere_versjon(f, a, b, x, y);
        assert(p.skip(1) =~= f + seq![x] + a);
        assert(q.skip(1) =~= f + seq![y] + b);
        assert((felles + a).skip(1) =~= f + a);
    }
}

/// A name that is a number counts as that number; any other part of a version
/// is passed over.
pub proof fn law_versjonstall(l: Seq<Seq<char>>, s: Seq<char>, n: nat)
    ensures
        number_text::nat_of(s) == Some(n) && n <= u64::MAX ==> tallene(l.push(s)) == tallene(l).push(n),
        number_text::nat_of(s) is None ==> tallene(l.push(s)) == tallene(l),
        tallene(Seq::empty()) == Seq::<nat>::empty(),
{
    assert(l.push(s).drop_last() =~= l);
}

/// The backups are the files whose name ends in `.db` and is more than that.
pub proof fn law_kopiene(l: Seq<Seq<char>>)
    ensures
        kopier(l) == l.filter(|s: Seq<char>| s.len() > 3 && ".db"@.is_suffix_of(s)),
    decreases l.len(),
{
    reveal(Seq::filter);
    reveal_strlit(".db");
    assert(".db"@.len() == 3);
    if l.len() > 0 {
        law_kopiene(l.drop_last());
        let s = l.last();
        if s.len() > 3 {
            assert(s.skip(s.len() - 3) =~= s.subrange(s.len() - 3, s.len() as int));
            assert(er_kopi(s) == ".db"@.is_suffix_of(s));
        }
    }
}

/// The file is the first argument that is no switch.
pub proof fn law_forste_fil(l: Seq<Seq<char>>, k: int)
    requires
        0 <= k < l.len(),
        !"--"@.is_prefix_of(l[k]),
        forall|i: int| 0 <= i < k ==> "--"@.is_prefix_of(#[trigger] l[i]),
    ensures
        forste_fil(l, 0) == Some(l[k]),
{
    lemma_forste_fil(l, 0, k);
}

proof fn lemma_forste_fil(l: Seq<Seq<char>>, j: int, k: int)
    requires
        0 <= j <= k < l.len(),
        !"--"@.is_prefix_of(l[k]),
        forall|i: int| 0 <= i < k ==> "--"@.is_prefix_of(#[trigger] l[i]),
    ensures
        forste_fil(l, j) == Some(l[k]),
    decreases k - j,
{
    let p = "--"@;
    let s = l[j];
    if p.len() <= s.len() {
        assert(s.take(p.len() as int) =~= s.subrange(0, p.len() as int));
    }
    assert(text::starts(s, p) == p.is_prefix_of(s));
    if j < k {
        lemma_forste_fil(l, j + 1, k);
    }
}

/// Real orders are sent exactly in live mode with a broker that is not the one
/// of paper.
pub proof fn law_ekte_ordrer(cfg: Config)
    ensures
        cfg.ekte() <==> cfg.mode@ == "live"@ && cfg.broker@ != "paper"@,
        !cfg.ekte() ==> papir(cfg) && meglernavn(cfg) == "paper"@,
{
}

/// A portfolio is in use where anything is held, or where its cash is more than
/// half an øre from what it started with.
pub proof fn law_i_bruk(kontanter: int, antall: nat, start: int)
    ensures
        antall > 0 ==> i_bruk(kontanter, antall, start),
        i_bruk(start * 100_000_000, 0, start) == false,
        i_bruk(start * 100_000_000 + 50_000_000_000_000, 0, start) == false,
        i_bruk(start * 100_000_000 + 50_000_000_000_001, 0, start),
        i_bruk(start * 100_000_000 - 50_000_000_000_001, 0, start),
{
}

/// The mode where nobody can be asked.
pub open spec fn modus_uten_konsoll(cfg: Config) -> Seq<char> {
    if cfg.live() && !cfg.live_ok {
        "paper"@
    } else {
        cfg.mode@
    }
}

/// Where nobody can be asked, real money is traded only by settings that allow
/// it beforehand; nothing else becomes live.
pub proof fn law_ikke_live_uten_samtykke(cfg: Config)
    ensures
        modus_uten_konsoll(cfg) == "live"@ <==> cfg.mode@ == "live"@ && cfg.live_ok,
        cfg.mode@ != "live"@ ==> modus_uten_konsoll(cfg) == cfg.mode@,
{
    reveal_strlit("paper");
    reveal_strlit("live");
    assert("paper"@.len() == 5 && "live"@.len() == 4);
}

/// The switches after a key.
pub open spec fn tastet(f: Flags, c: char) -> Flags {
    if c == 'q' {
        Flags { quit: true, ..f }
    } else if c == 'k' {
        Flags { killed: !f.killed, ..f }
    } else if c == 'p' {
        Flags { paused: !f.paused, ..f }
    } else {
        f
    }
}

/// The keys for the kill switch and the pause turn one switch each, and once
/// more turns it back; `q` only ends, and no other key does anything.
pub proof fn law_tastene(f: Flags, c: char)
    ensures
        tastet(f, 'k').killed != f.killed && tastet(f, 'k').paused == f.paused,
        tastet(f, 'p').paused != f.paused && tastet(f, 'p').killed == f.killed,
        tastet(tastet(f, 'k'), 'k') == f && tastet(tastet(f, 'p'), 'p') == f,
        tastet(f, c).quit <==> f.quit || c == 'q',
        c != 'q' && c != 'k' && c != 'p' ==> tastet(f, c) == f,
        tastet(f, 'q').killed == f.killed && tastet(f, 'q').paused == f.paused,
{
}

}
