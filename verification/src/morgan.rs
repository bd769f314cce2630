//! «Morgan», the built-in head of analysis: what a language model is asked, and
//! what is made of its answers.
use vstd::prelude::*;

pub mod autopilot;
pub mod kontekst;
pub mod prompter;

use crate::belop;
use crate::config::{Config, MorganCfg};
use crate::json;
use crate::json::{Json, JsonView};
use crate::text;
use crate::text::{chars_of, copy_text, same, string_of, text_replace, text_trim, three, two};

verus! {

/// The brain behind the analyst.
#[derive(Debug)]
pub enum Backend {
    /// A model in the cloud, with a key.
    Claude { api_key: String },
    /// A model on the user's own machine.
    Ollama { url: String, model: String },
}

/// A brain, for use in contracts.
pub enum Hjerne {
    Claude { api_key: Seq<char> },
    Ollama { url: Seq<char>, model: Seq<char> },
}

impl View for Backend {
    type V = Hjerne;

    open spec fn view(&self) -> Hjerne {
        match self {
            Backend::Claude { api_key } => Hjerne::Claude { api_key: api_key@ },
            Backend::Ollama { url, model } => Hjerne::Ollama { url: url@, model: model@ },
        }
    }
}

/// What the screen and the log call a brain: its model and where it runs. All
/// brains in the cloud think with one model, that of the program.
pub open spec fn merkelapp(h: Hjerne, sky: Seq<char>) -> Seq<char> {
    match h {
        Hjerne::Claude { api_key } => sky + " (Anthropic)"@,
        Hjerne::Ollama { url, model } => model + " (lokalt via Ollama)"@,
    }
}

/// A label never tells the key of a brain, nor where it is reached: every brain
/// in the cloud has the same.
pub proof fn law_merkelapp_roper_ingenting(
    k1: Seq<char>,
    k2: Seq<char>,
    u1: Seq<char>,
    u2: Seq<char>,
    m: Seq<char>,
    sky: Seq<char>,
)
    ensures
        merkelapp(Hjerne::Claude { api_key: k1 }, sky) == sky + " (Anthropic)"@,
        merkelapp(Hjerne::Claude { api_key: k2 }, sky) == sky + " (Anthropic)"@,
        merkelapp(Hjerne::Ollama { url: u1, model: m }, sky) == m + " (lokalt via Ollama)"@,
        merkelapp(Hjerne::Ollama { url: u2, model: m }, sky) == m + " (lokalt via Ollama)"@,
{
}

impl Backend {
    /// What the screen and the log call it; `sky` is the model in the cloud.
    pub fn label(&self, sky: &str) -> (r: String)
        ensures
            r@ == merkelapp(self@, sky@),
    {
        match self {
            Backend::Claude { .. } => two(sky, " (Anthropic)"),
            Backend::Ollama { model, .. } => two(model.as_str(), " (lokalt via Ollama)"),
        }
    }
}

pub const MANGLER_NOKKEL: &'static str = "Mangler API-nøkkel. Opprett en på console.anthropic.com og sett miljøvariabelen ANTHROPIC_API_KEY før du starter appen (Windows: setx ANTHROPIC_API_KEY \"sk-ant-…\", start appen på nytt). Alternativ uten nøkkel: sett provider = \"ollama\" under [morgan] i Innstillinger og kjør en lokal modell via ollama.com.";

pub const DUO_MANGLER_NOKKEL: &'static str = "duo-modus krever ANTHROPIC_API_KEY (modellen i skyen beslutter). Sett nøkkelen, eller velg én av dem alene.";

/// The family of a model: its name up to the first hyphen.
pub open spec fn familie(model: Seq<char>) -> Seq<char> {
    text::split_on(model, '-')[0]
}

fn finn_familie(model: &str) -> (r: String)
    ensures
        r@ == familie(model@),
{
    let cs: Vec<char> = chars_of(model);
    let deler: Vec<Vec<char>> = text::split(cs.as_slice(), '-');
    assert(text::seqs(deler@)[0] == deler@[0]@);
    string_of(deler[0].as_slice())
}

/// The name of the first model in a list that is of the large kind, as the model
/// in the cloud is where no other is asked for. The newest stands first.
pub open spec fn modell_i(l: Seq<JsonView>) -> Option<Seq<char>>
    decreases l.len(),
{
    if l.len() == 0 {
        None
    } else {
        match l[0].felt_tekst("id"@) {
            Some(t) => if text::has(t, "-opus-"@) {
                Some(t)
            } else {
                modell_i(l.skip(1))
            },
            None => modell_i(l.skip(1)),
        }
    }
}

/// The model that is chosen from the list of them that the cloud gives.
pub fn tolk_modeller(v: &Json) -> (r: Option<String>)
    ensures
        (match modell_i(v@.felt_liste("data"@)) {
            Some(t) => r is Some && r->0@ == t,
            None => r is None,
        }),
{
    let l: &[Json] = v.felt_liste("data");
    let ghost alle = json::syner(l@);
    let mut i: usize = 0;
    assert(alle.skip(0) =~= alle);
    while i < l.len()
        invariant
            i <= l@.len(),
            alle == json::syner(l@),
            alle == v@.felt_liste("data"@),
            modell_i(alle) == modell_i(alle.skip(i as int)),
        decreases l.len() - i,
    {
        assert(alle.skip(i as int)[0] == l@[i as int]@);
        assert(alle.skip(i as int).skip(1) =~= alle.skip(i + 1));
        if let Some(t) = l[i].felt_tekst("id") {
            if text::text_has(t, "-opus-") {
                return Some(t.to_owned());
            }
        }
        i += 1;
    }
    None
}

/// The brain in the cloud, where its key is given.
pub open spec fn sky_av(nokkel: Option<&str>) -> Option<Hjerne> {
    match nokkel {
        Some(k) => Some(Hjerne::Claude { api_key: k@ }),
        None => None,
    }
}

/// The brain that the settings ask for. The one in the cloud needs a key.
pub open spec fn hjerne(cfg: MorganCfg, sky: Option<Hjerne>) -> Result<Hjerne, Seq<char>> {
    if cfg.provider@ == "ollama"@ {
        Ok(Hjerne::Ollama { url: cfg.ollama_url@, model: cfg.ollama_model@ })
    } else {
        match sky {
            Some(h) => Ok(h),
            None => Err(MANGLER_NOKKEL@),
        }
    }
}

pub fn backend(cfg: &MorganCfg, nokkel: Option<&str>) -> (r: Result<Backend, &'static str>)
    ensures
        (match hjerne(*cfg, sky_av(nokkel)) {
            Ok(h) => r is Ok && r->Ok_0@ == h,
            Err(e) => r is Err && r->Err_0@ == e,
        }),
{
    if same(cfg.provider.as_str(), "ollama") {
        return Ok(Backend::Ollama { url: copy_text(&cfg.ollama_url), model: copy_text(&cfg.ollama_model) });
    }
    match nokkel {
        Some(k) => Ok(Backend::Claude { api_key: k.to_owned() }),
        None => Err(MANGLER_NOKKEL),
    }
}

/// The brains of the day trader: the one that decides and, in a duo, the scout.
/// The family of the model in the cloud is a word for it. Without a word of its
/// own, and with one that is not known, it thinks as the adviser.
pub open spec fn hjerner(cfg: Config, sky: Option<Hjerne>, modell: Seq<char>) -> Result<
    (Hjerne, Option<Hjerne>),
    Seq<char>,
> {
    let p = text::trimmed(cfg.morgan.autopilot.provider@);
    let lokal = Hjerne::Ollama { url: cfg.morgan.ollama_url@, model: cfg.morgan.ollama_model@ };
    if p == "duo"@ {
        match sky {
            Some(h) => Ok((h, Some(lokal))),
            None => Err(DUO_MANGLER_NOKKEL@),
        }
    } else if p == "ollama"@ {
        Ok((lokal, None))
    } else if p.len() > 0 && p == familie(modell) {
        match sky {
            Some(h) => Ok((h, None)),
            None => Err(p + "-hjerne krever ANTHROPIC_API_KEY"@),
        }
    } else {
        match hjerne(cfg.morgan, sky) {
            Ok(h) => Ok((h, None)),
            Err(e) => Err(e),
        }
    }
}

pub open spec fn hjernesyn(o: Option<Backend>) -> Option<Hjerne> {
    match o {
        Some(b) => Some(b@),
        None => None,
    }
}

/// The brains of the day trader; `modell` is the model in the cloud, as far as
/// it is known.
pub fn autopilot_backends(cfg: &Config, nokkel: Option<&str>, modell: &str) -> (r: Result<
    (Backend, Option<Backend>),
    String,
>)
    ensures
        (match hjerner(*cfg, sky_av(nokkel), modell@) {
            Ok(p) => r is Ok && (r->Ok_0).0@ == p.0 && hjernesyn((r->Ok_0).1) == p.1,
            Err(e) => r is Err && r->Err_0@ == e,
        }),
{
    proof {
        reveal_strlit("duo");
        reveal_strlit("ollama");
        assert("duo"@.len() != "ollama"@.len());
    }
    let p: String = text_trim(cfg.morgan.autopilot.provider.as_str());
    if same(p.as_str(), "duo") {
        let speider: Backend = Backend::Ollama {
            url: copy_text(&cfg.morgan.ollama_url),
            model: copy_text(&cfg.morgan.ollama_model),
        };
        return match nokkel {
            Some(k) => Ok((Backend::Claude { api_key: k.to_owned() }, Some(speider))),
            None => Err(DUO_MANGLER_NOKKEL.to_owned()),
        };
    }
    if same(p.as_str(), "ollama") {
        let lokal: Backend = Backend::Ollama {
            url: copy_text(&cfg.morgan.ollama_url),
            model: copy_text(&cfg.morgan.ollama_model),
        };
        return Ok((lokal, None));
    }
    let f: String = finn_familie(modell);
    if p.as_str().unicode_len() > 0 && same(p.as_str(), f.as_str()) {
        return match nokkel {
            Some(k) => Ok((Backend::Claude { api_key: k.to_owned() }, None)),
            None => Err(two(p.as_str(), "-hjerne krever ANTHROPIC_API_KEY")),
        };
    }
    match backend(&cfg.morgan, nokkel) {
        Ok(b) => Ok((b, None)),
        Err(e) => Err(e.to_owned()),
    }
}

// ---------------------------------------------------------------------------
// Questions
// ---------------------------------------------------------------------------

/// A question to a model.
#[derive(Debug)]
pub struct Oppdrag {
    pub system: &'static str,
    pub user: String,
    pub max_tokens: u32,
}

/// The screening of the market for a profile.
pub fn analyze(profile: &str, market_json: &str) -> (r: Oppdrag)
    ensures
        r.system@ == prompter::SYSTEM_PROMPT@,
        r.user@ == "Min investeringsprofil:\n"@ + profile@ + ("\n\nSanntidsdata fra appen min (JSON):\n"@ + market_json@),
        r.max_tokens == 16000,
{
    let b: String = two("\n\nSanntidsdata fra appen min (JSON):\n", market_json);
    Oppdrag {
        system: prompter::SYSTEM_PROMPT,
        user: three("Min investeringsprofil:\n", profile, b.as_str()),
        max_tokens: 16000,
    }
}

/// A close look at one share.
pub fn analyze_symbol(symbol: &str, context_json: &str) -> (r: Oppdrag)
    ensures
        r.system@ == prompter::SYMBOL_PROMPT@,
        r.user@ == "Gi meg et dypdykk i "@ + symbol@ + (".\n\nSanntidsdata fra appen min (JSON):\n"@ + context_json@),
        r.max_tokens == 10000,
{
    let b: String = two(".\n\nSanntidsdata fra appen min (JSON):\n", context_json);
    Oppdrag {
        system: prompter::SYMBOL_PROMPT,
        user: three("Gi meg et dypdykk i ", symbol, b.as_str()),
        max_tokens: 10000,
    }
}

/// A look at the whole portfolio.
pub fn analyze_portfolio(context_json: &str) -> (r: Oppdrag)
    ensures
        r.system@ == prompter::PORTFOLIO_PROMPT@,
        r.user@ == "Vurder porteføljen min.\n\nPorteføljedata fra appen min (JSON):\n"@ + context_json@,
        r.max_tokens == 12000,
{
    Oppdrag {
        system: prompter::PORTFOLIO_PROMPT,
        user: two("Vurder porteføljen min.\n\nPorteføljedata fra appen min (JSON):\n", context_json),
        max_tokens: 12000,
    }
}

/// The daily council of the two.
pub fn council(context_json: &str) -> (r: Oppdrag)
    ensures
        r.system@ == prompter::COUNCIL_PROMPT@,
        r.user@ == "Her er dagens data (JSON):\n"@ + context_json@ + "\n\nSkriv dagens rådslag."@,
        r.max_tokens == 8000,
{
    Oppdrag {
        system: prompter::COUNCIL_PROMPT,
        user: three("Her er dagens data (JSON):\n", context_json, "\n\nSkriv dagens rådslag."),
        max_tokens: 8000,
    }
}

/// A decision of the day trader.
pub fn autopilot_decide(context_json: &str) -> (r: Oppdrag)
    ensures
        r.system@ == prompter::AUTOPILOT_PROMPT@,
        r.user@ == "Her er øyeblikksbildet (JSON):\n"@ + context_json@ + "\n\nHva gjør vi nå?"@,
        r.max_tokens == 1000,
{
    Oppdrag {
        system: prompter::AUTOPILOT_PROMPT,
        user: three("Her er øyeblikksbildet (JSON):\n", context_json, "\n\nHva gjør vi nå?"),
        max_tokens: 1000,
    }
}

/// The scout's look at the market.
pub fn scout_market(context_json: &str) -> (r: Oppdrag)
    ensures
        r.system@ == prompter::SCOUT_PROMPT@,
        r.user@ == "Øyeblikksbilde (JSON):\n"@ + context_json@ + "\n\nVerdt en grundig vurdering nå?"@,
        r.max_tokens == 300,
{
    Oppdrag {
        system: prompter::SCOUT_PROMPT,
        user: three("Øyeblikksbilde (JSON):\n", context_json, "\n\nVerdt en grundig vurdering nå?"),
        max_tokens: 300,
    }
}

pub open spec fn tilbakeblikk_tekst(dato: Seq<char>, realisert: int, journal: Seq<Seq<char>>) -> Seq<char> {
    "Dato: "@ + dato + (". Ca. realisert resultat: "@ + belop::verdi_tekst(realisert, 0) + (" kr.\nJournal:\n"@
        + text::joined(journal, "\n"@) + "\n\nHva er dagens viktigste lærdom?"@))
}

/// The day trader's look back on its day.
pub fn self_review(dato: &str, realisert: i128, journal: &Vec<String>) -> (r: Oppdrag)
    ensures
        r.system@ == prompter::REVIEW_PROMPT@,
        r.user@ == tilbakeblikk_tekst(dato@, realisert as int, text::views(journal@)),
        r.max_tokens == 400,
{
    let linjer: String = text::join_text(journal, "\n");
    let c: String = three(" kr.\nJournal:\n", linjer.as_str(), "\n\nHva er dagens viktigste lærdom?");
    let kr: Vec<char> = belop::skriv(realisert, 16, 0);
    let krt: String = string_of(kr.as_slice());
    let b: String = three(". Ca. realisert resultat: ", krt.as_str(), c.as_str());
    Oppdrag { system: prompter::REVIEW_PROMPT, user: three("Dato: ", dato, b.as_str()), max_tokens: 400 }
}

/// A lesson as it is kept: on one line.
pub fn laerdom(svar: &str) -> (r: String)
    ensures
        r@ == text::replaced(text::trimmed(svar@), "\n"@, " "@),
{
    let t: String = text_trim(svar);
    proof {
        reveal_strlit("\n");
    }
    text_replace(t.as_str(), "\n", " ")
}

// ---------------------------------------------------------------------------
// Bodies
// ---------------------------------------------------------------------------

pub open spec fn melding_json(rolle: Seq<char>, innhold: Seq<char>) -> JsonView {
    JsonView::Obj(seq![("role"@, JsonView::Str(rolle)), ("content"@, JsonView::Str(innhold))])
}

fn melding(rolle: &str, innhold: &str) -> (r: Json)
    ensures
        r@ == melding_json(rolle@, innhold@),
{
    let l: Vec<(String, Json)> = vec![
        json::felt_av("role", json::tekst(rolle)),
        json::felt_av("content", json::tekst(innhold)),
    ];
    assert(json::par(l@) =~= melding_json(rolle@, innhold@)->Obj_0);
    json::objekt(l)
}

pub open spec fn ollama_json(model: Seq<char>, o: Oppdrag) -> JsonView {
    JsonView::Obj(
        seq![
            ("model"@, JsonView::Str(model)),
            ("stream"@, JsonView::Bool(false)),
            ("messages"@, JsonView::Arr(seq![melding_json("system"@, o.system@), melding_json("user"@, o.user@)])),
            ("options"@, JsonView::Obj(seq![("num_predict"@, JsonView::Hel(o.max_tokens as int))])),
        ],
    )
}

/// The body of a question to a model on the user's own machine.
pub fn ollama_kropp(model: &str, o: &Oppdrag) -> (r: String)
    ensures
        r@ == json::json_kompakt(json::lagt(ollama_json(model@, *o))),
{
    let ghost hele = ollama_json(model@, *o)->Obj_0;
    let m: Vec<Json> = vec![melding("system", o.system), melding("user", o.user.as_str())];
    assert(json::syner(m@) =~= hele[2].1->Arr_0);
    let valg: Vec<(String, Json)> = vec![json::felt_av("num_predict", Json::Hel(o.max_tokens as i128))];
    assert(json::par(valg@) =~= hele[3].1->Obj_0);
    let l: Vec<(String, Json)> = vec![
        json::felt_av("model", json::tekst(model)),
        json::felt_av("stream", Json::Bool(false)),
        json::felt_av("messages", json::liste_av(m)),
        json::felt_av("options", json::objekt(valg)),
    ];
    assert(json::par(l@) =~= hele);
    json::skriv(&json::objekt(l))
}

/// Where the model on the user's own machine is asked.
pub fn ollama_adresse(url: &str) -> (r: String)
    ensures
        r@ == text::strip_end(url@, '/') + "/api/chat"@,
{
    let rot: String = text::without_end(url, '/');
    two(rot.as_str(), "/api/chat")
}

pub open spec fn claude_json(model: Seq<char>, o: Oppdrag) -> JsonView {
    JsonView::Obj(
        seq![
            ("model"@, JsonView::Str(model)),
            ("max_tokens"@, JsonView::Hel(o.max_tokens as int)),
            ("thinking"@, JsonView::Obj(seq![("type"@, JsonView::Str("adaptive"@))])),
            ("system"@, JsonView::Str(o.system@)),
            ("messages"@, JsonView::Arr(seq![melding_json("user"@, o.user@)])),
        ],
    )
}

/// The body of a question to the model in the cloud.
pub fn claude_kropp(model: &str, o: &Oppdrag) -> (r: String)
    ensures
        r@ == json::json_kompakt(json::lagt(claude_json(model@, *o))),
{
    let ghost hele = claude_json(model@, *o)->Obj_0;
    let tenk: Vec<(String, Json)> = vec![json::felt_av("type", json::tekst("adaptive"))];
    assert(json::par(tenk@) =~= hele[2].1->Obj_0);
    let m: Vec<Json> = vec![melding("user", o.user.as_str())];
    assert(json::syner(m@) =~= hele[4].1->Arr_0);
    let l: Vec<(String, Json)> = vec![
        json::felt_av("model", json::tekst(model)),
        json::felt_av("max_tokens", Json::Hel(o.max_tokens as i128)),
        json::felt_av("thinking", json::objekt(tenk)),
        json::felt_av("system", json::tekst(o.system)),
        json::felt_av("messages", json::liste_av(m)),
    ];
    assert(json::par(l@) =~= hele);
    json::skriv(&json::objekt(l))
}

// ---------------------------------------------------------------------------
// Answers
// ---------------------------------------------------------------------------

/// A field of a field, as text.
pub open spec fn dyp_tekst(v: JsonView, a: Seq<char>, b: Seq<char>) -> Option<Seq<char>> {
    match v.felt(a) {
        Some(f) => f.felt_tekst(b),
        None => None,
    }
}

fn dyp<'a>(v: &'a Json, a: &str, b: &str) -> (r: Option<&'a str>)
    ensures
        json::tekst_syn(r) == dyp_tekst(v@, a@, b@),
{
    match v.felt(a) {
        Some(f) => f.felt_tekst(b),
        None => None,
    }
}

pub open spec fn eller(o: Option<Seq<char>>, s: Seq<char>) -> Seq<char> {
    match o {
        Some(t) => t,
        None => s,
    }
}

/// What the model on the user's own machine answers.
pub open spec fn ollama_svar(godt: bool, status: Seq<char>, v: JsonView, model: Seq<char>) -> Result<Seq<char>, Seq<char>> {
    if !godt {
        Err(
            "Ollama svarte "@ + status + (": "@ + eller(v.felt_tekst("error"@), "ukjent feil"@) + (
            ". Mangler modellen? Kjør i ledeteksten: ollama pull "@ + model)),
        )
    } else {
        let t = eller(dyp_tekst(v, "message"@, "content"@), Seq::empty());
        if t.len() == 0 {
            Err("tomt svar fra modellen"@)
        } else {
            Ok(t)
        }
    }
}

pub open spec fn er_svar(r: Result<String, String>, s: Result<Seq<char>, Seq<char>>) -> bool {
    match s {
        Ok(t) => r is Ok && r->Ok_0@ == t,
        Err(e) => r is Err && r->Err_0@ == e,
    }
}

pub fn tolk_ollama(godt: bool, status: &str, v: &Json, model: &str) -> (r: Result<String, String>)
    ensures
        er_svar(r, ollama_svar(godt, status@, v@, model@)),
{
    if !godt {
        let feil: &str = match v.felt_tekst("error") {
            Some(t) => t,
            None => "ukjent feil",
        };
        let c: String = two(". Mangler modellen? Kjør i ledeteksten: ollama pull ", model);
        let b: String = three(": ", feil, c.as_str());
        return Err(three("Ollama svarte ", status, b.as_str()));
    }
    match dyp(v, "message", "content") {
        Some(t) => if t.unicode_len() > 0 {
            Ok(t.to_owned())
        } else {
            Err("tomt svar fra modellen".to_owned())
        },
        None => Err("tomt svar fra modellen".to_owned()),
    }
}

/// The text blocks of an answer, one after the other.
pub open spec fn tekstblokker(l: Seq<JsonView>) -> Seq<char>
    decreases l.len(),
{
    if l.len() == 0 {
        Seq::empty()
    } else {
        tekstblokker(l.drop_last()) + (if l.last().felt_tekst("type"@) == Some("text"@) {
            eller(l.last().felt_tekst("text"@), Seq::empty())
        } else {
            Seq::empty()
        })
    }
}

pub const AVVIST: &'static str = "Analysen ble avvist av modellens sikkerhetsfiltre — juster profilen og prøv igjen.";

pub const AVKORTET: &'static str = "\n\n---\n*(Rapporten nådde lengdegrensen og kan være avkortet.)*";

/// What the model in the cloud answers.
pub open spec fn claude_svar(godt: bool, status: Seq<char>, v: JsonView) -> Result<Seq<char>, Seq<char>> {
    let stopp = v.felt_tekst("stop_reason"@);
    let rapport = tekstblokker(v.felt_liste("content"@));
    if !godt {
        Err(
            "Anthropic API svarte "@ + status + (": "@ + eller(
                dyp_tekst(v, "error"@, "message"@),
                "ukjent feil"@,
            )),
        )
    } else if stopp == Some("refusal"@) {
        Err(AVVIST@)
    } else if rapport.len() == 0 {
        Err("tomt svar fra modellen"@)
    } else if stopp == Some("max_tokens"@) {
        Ok(rapport + AVKORTET@)
    } else {
        Ok(rapport)
    }
}

fn les_blokker(l: &[Json]) -> (r: String)
    ensures
        r@ == tekstblokker(json::syner(l@)),
{
    let ghost alle = json::syner(l@);
    let mut ut: Vec<char> = Vec::new();
    let mut i: usize = 0;
    assert(alle.take(0) =~= Seq::empty());
    while i < l.len()
        invariant
            i <= l@.len(),
            alle == json::syner(l@),
            ut@ =~= tekstblokker(alle.take(i as int)),
        decreases l.len() - i,
    {
        proof {
            assert(alle.take(i + 1).drop_last() =~= alle.take(i as int));
            assert(alle.take(i + 1).last() == l@[i as int]@);
        }
        if let Some(t) = l[i].felt_tekst("type") {
            if same(t, "text") {
                if let Some(tekst) = l[i].felt_tekst("text") {
                    text::push_text(&mut ut, tekst);
                }
            }
        }
        i += 1;
    }
    assert(alle.take(i as int) =~= alle);
    string_of(ut.as_slice())
}

pub fn tolk_claude(godt: bool, status: &str, v: &Json) -> (r: Result<String, String>)
    ensures
        er_svar(r, claude_svar(godt, status@, v@)),
{
    if !godt {
        let feil: &str = match dyp(v, "error", "message") {
            Some(t) => t,
            None => "ukjent feil",
        };
        let b: String = two(": ", feil);
        return Err(three("Anthropic API svarte ", status, b.as_str()));
    }
    let stopp: Option<&str> = v.felt_tekst("stop_reason");
    if let Some(s) = stopp {
        if same(s, "refusal") {
            return Err(AVVIST.to_owned());
        }
    }
    let rapport: String = les_blokker(v.felt_liste("content"));
    if rapport.as_str().unicode_len() == 0 {
        return Err("tomt svar fra modellen".to_owned());
    }
    if let Some(s) = stopp {
        if same(s, "max_tokens") {
            return Ok(two(rapport.as_str(), AVKORTET));
        }
    }
    Ok(rapport)
}

// ---------------------------------------------------------------------------
// Decisions
// ---------------------------------------------------------------------------

/// What the day trader decides.
#[derive(Debug, Clone, PartialEq)]
pub enum AutopilotDecision {
    Buy { amount_kr: i64, reason: String },
    Sell { amount_kr: i64, reason: String },
    Hold { reason: String },
}

/// A decision, for use in contracts.
pub enum Beslutning {
    Buy { amount_kr: int, reason: Seq<char> },
    Sell { amount_kr: int, reason: Seq<char> },
    Hold { reason: Seq<char> },
}

impl View for AutopilotDecision {
    type V = Beslutning;

    open spec fn view(&self) -> Beslutning {
        match self {
            AutopilotDecision::Buy { amount_kr, reason } => Beslutning::Buy {
                amount_kr: *amount_kr as int,
                reason: reason@,
            },
            AutopilotDecision::Sell { amount_kr, reason } => Beslutning::Sell {
                amount_kr: *amount_kr as int,
                reason: reason@,
            },
            AutopilotDecision::Hold { reason } => Beslutning::Hold { reason: reason@ },
        }
    }
}

/// The first block of a text: from its first opening brace to the brace that
/// closes it.
pub open spec fn utsnitt(s: Seq<char>) -> Option<Seq<char>> {
    match text::first_char(s, '{', 0) {
        Some(a) => match json::lukker(s, a, 0, false, false) {
            Some(b) => Some(s.subrange(a, b + 1)),
            None => None,
        },
        None => None,
    }
}

/// What stands from the first opening brace of a text to its last closing one.
pub open spec fn ytterst(s: Seq<char>) -> Option<Seq<char>> {
    match (text::first_char(s, '{', 0), text::last_char(s, '}')) {
        (Some(a), Some(b)) => if a <= b {
            Some(s.subrange(a, b + 1))
        } else {
            None
        },
        _ => None,
    }
}

fn finn_ytterst(s: &str) -> (r: Option<String>)
    ensures
        (match ytterst(s@) {
            Some(t) => r is Some && r->0@ == t,
            None => r is None,
        }),
{
    let cs: Vec<char> = chars_of(s);
    let _lengde: usize = cs.len();
    match (text::find_char(cs.as_slice(), '{', 0), text::rfind_char(cs.as_slice(), '}')) {
        (Some(a), Some(b)) => if a <= b {
            let d: Vec<char> = text::slice(cs.as_slice(), a, b + 1);
            Some(string_of(d.as_slice()))
        } else {
            None
        },
        _ => None,
    }
}

fn finn_utsnitt(s: &str) -> (r: Option<String>)
    ensures
        (match utsnitt(s@) {
            Some(t) => r is Some && r->0@ == t,
            None => r is None,
        }),
{
    let cs: Vec<char> = chars_of(s);
    let _lengde: usize = cs.len();
    match text::find_char(cs.as_slice(), '{', 0) {
        Some(a) => match json::finn_lukker(cs.as_slice(), a) {
            Some(b) => {
                let d: Vec<char> = text::slice(cs.as_slice(), a, b + 1);
                Some(string_of(d.as_slice()))
            },
            None => None,
        },
        None => None,
    }
}

/// What stands behind the first block of an answer does not count, however many
/// braces it holds, nor what stands before it, as long as it holds none.
pub proof fn law_forste_blokk(for_: Seq<char>, blokk: Seq<char>, etter: Seq<char>)
    requires
        text::first_char(for_, '{', 0) is None,
        utsnitt(blokk) == Some(blokk),
    ensures
        utsnitt(for_ + blokk + etter) == Some(blokk),
{
    let s = for_ + blokk + etter;
    let n = for_.len() as int;
    text::lemma_first_char(blokk, '{', 0);
    text::lemma_first_char(for_, '{', 0);
    text::lemma_first_char(s, '{', 0);
    let a = text::first_char(blokk, '{', 0)->0;
    let b = json::lukker(blokk, a, 0, false, false)->0;
    json::lemma_lukker(blokk, a, 0, false, false);
    assert(blokk.subrange(a, b + 1).len() == blokk.len());
    assert(a == 0 && b + 1 == blokk.len());
    assert(s[n] == blokk[0]);
    assert forall|i: int| 0 <= i < n implies s[i] != '{' by {
        assert(s[i] == for_[i]);
    }
    assert(text::first_char(s, '{', 0) == Some(n));
    json::lemma_lukker_inni(for_, blokk, etter, 0, 0, false, false);
    assert(s.subrange(n, n + b + 1) =~= blokk);
}

/// The amount of an answer: without its sign, and 0 where there is none.
pub open spec fn svarbelop(v: JsonView) -> int {
    match v.felt_belop("belop_kr"@) {
        Some(b) => if b == i64::MIN {
            i64::MAX as int
        } else if b < 0 {
            -b
        } else {
            b
        },
        None => 0,
    }
}

/// What a word in upper case, an amount and a reason decide. Anything but a
/// clear order to buy or sell for something is to wait.
pub open spec fn valgt(ord: Seq<char>, belop_kr: int, grunn: Seq<char>) -> Beslutning {
    if (ord == "KJØP"@ || ord == "KJOP"@) && belop_kr > 0 {
        Beslutning::Buy { amount_kr: belop_kr, reason: grunn }
    } else if ord == "SELG"@ && belop_kr > 0 {
        Beslutning::Sell { amount_kr: belop_kr, reason: grunn }
    } else {
        Beslutning::Hold { reason: grunn }
    }
}

pub fn velg(ord: &str, belop_kr: i64, grunn: &str) -> (r: AutopilotDecision)
    ensures
        r@ == valgt(ord@, belop_kr as int, grunn@),
{
    let reason: String = grunn.to_owned();
    if (same(ord, "KJØP") || same(ord, "KJOP")) && belop_kr > 0 {
        AutopilotDecision::Buy { amount_kr: belop_kr, reason }
    } else if same(ord, "SELG") && belop_kr > 0 {
        AutopilotDecision::Sell { amount_kr: belop_kr, reason }
    } else {
        AutopilotDecision::Hold { reason }
    }
}

/// What a document decides.
pub open spec fn beslutning_av(v: JsonView) -> Result<Beslutning, Seq<char>> {
    match v.felt_tekst("beslutning"@) {
        Some(b) => Ok(
            valgt(text::uppercase(b), svarbelop(v), eller(v.felt_tekst("begrunnelse"@), "(ingen begrunnelse)"@)),
        ),
        None => Err("mangler «beslutning»"@),
    }
}

/// What a document decides, or what is missing in it.
pub fn tolk_beslutning(v: &Json) -> (r: Result<AutopilotDecision, &'static str>)
    ensures
        (match beslutning_av(v@) {
            Ok(b) => r is Ok && r->Ok_0@ == b,
            Err(e) => r is Err && r->Err_0@ == e,
        }),
{
    let b: &str = match v.felt_tekst("beslutning") {
        Some(b) => b,
        None => return Err("mangler «beslutning»"),
    };
    let ord: String = text::to_uppercase(b);
    let belop_kr: i64 = match v.felt_belop("belop_kr") {
        Some(x) => if x == i64::MIN {
            i64::MAX
        } else if x < 0 {
            -x
        } else {
            x
        },
        None => 0,
    };
    let grunn: &str = match v.felt_tekst("begrunnelse") {
        Some(g) => g,
        None => "(ingen begrunnelse)",
    };
    Ok(velg(ord.as_str(), belop_kr, grunn))
}

/// What an answer decides. Models wrap their JSON in fences and chatter: the
/// first block counts.
pub open spec fn svar_beslutter(s: Seq<char>) -> Result<Beslutning, Seq<char>> {
    if text::first_char(s, '{', 0) is None {
        Err("fant ingen JSON i svaret"@)
    } else if text::last_char(s, '}') is None {
        Err("fant ingen JSON-slutt i svaret"@)
    } else {
        match utsnitt(s) {
            Some(t) => match json::json_lest(t) {
                Some(v) => beslutning_av(v),
                None => Err("ugyldig JSON fra modellen"@),
            },
            None => Err("ugyldig JSON fra modellen"@),
        }
    }
}

pub fn parse_autopilot_decision(svar: &str) -> (r: Result<AutopilotDecision, &'static str>)
    ensures
        (match svar_beslutter(svar@) {
            Ok(b) => r is Ok && r->Ok_0@ == b,
            Err(e) => r is Err && r->Err_0@ == e,
        }),
{
    let cs: Vec<char> = chars_of(svar);
    if text::find_char(cs.as_slice(), '{', 0).is_none() {
        return Err("fant ingen JSON i svaret");
    }
    if text::rfind_char(cs.as_slice(), '}').is_none() {
        return Err("fant ingen JSON-slutt i svaret");
    }
    match finn_utsnitt(svar) {
        Some(t) => match json::les(t.as_str()) {
            Some(v) => tolk_beslutning(&v),
            None => Err("ugyldig JSON fra modellen"),
        },
        None => Err("ugyldig JSON fra modellen"),
    }
}

/// What the scout's document says: whether to wake the chief, and why.
pub open spec fn speidet(v: JsonView) -> Option<(bool, Seq<char>)> {
    match v.felt("interessant"@) {
        Some(b) => match b.som_bool() {
            Some(i) => Some((i, eller(v.felt_tekst("hvorfor"@), Seq::empty()))),
            None => None,
        },
        None => None,
    }
}

pub fn tolk_speider(v: &Json) -> (r: Option<(bool, String)>)
    ensures
        (match speidet(v@) {
            Some(p) => r is Some && (r->0).0 == p.0 && (r->0).1@ == p.1,
            None => r is None,
        }),
{
    match v.felt("interessant") {
        Some(b) => match b.som_bool() {
            Some(i) => {
                let hvorfor: String = match v.felt_tekst("hvorfor") {
                    Some(t) => t.to_owned(),
                    None => string_of(&[]),
                };
                Some((i, hvorfor))
            },
            None => None,
        },
        None => None,
    }
}

/// What the scout says. An answer that cannot be read wakes the chief.
pub fn parse_scout(svar: &str) -> (r: (bool, String))
    ensures
        ({
            let lest = match ytterst(svar@) {
                Some(t) => match json::json_lest(t) {
                    Some(v) => speidet(v),
                    None => None,
                },
                None => None,
            };
            match lest {
                Some(p) => r.0 == p.0 && r.1@ == p.1,
                None => r.0 && r.1@ == "uklart speider-svar"@,
            }
        }),
{
    if let Some(t) = finn_ytterst(svar) {
        if let Some(v) = json::les(t.as_str()) {
            if let Some(p) = tolk_speider(&v) {
                return p;
            }
        }
    }
    (true, "uklart speider-svar".to_owned())
}

/// A document decides to buy or sell only for something, and only on the words
/// for it; every other document that says anything waits.
pub proof fn law_tvil_er_avvent(v: JsonView)
    ensures
        beslutning_av(v) is Ok == v.felt_tekst("beslutning"@) is Some,
        beslutning_av(v) matches Ok(Beslutning::Buy { amount_kr, .. }) ==> 0 < amount_kr <= i64::MAX,
        beslutning_av(v) matches Ok(Beslutning::Sell { amount_kr, .. }) ==> 0 < amount_kr <= i64::MAX,
        svarbelop(v) == 0 && beslutning_av(v) is Ok ==> beslutning_av(v)->Ok_0 is Hold,
{
}

/// The amount of an answer is how much it names, whatever its sign; none is
/// nothing.
pub proof fn law_svarbelop(v: JsonView)
    ensures
        svarbelop(v) >= 0,
        v.felt_belop("belop_kr"@) is None ==> svarbelop(v) == 0,
        v.felt_belop("belop_kr"@) matches Some(b) ==> b > i64::MIN ==> svarbelop(v) == b || svarbelop(v) == -b,
{
}

/// An answer buys only where it says so and names an amount, and sells only
/// where it says so and names one; then it is for that amount. Anything else
/// waits.
pub proof fn law_svaret_velger(ord: Seq<char>, belop_kr: int, grunn: Seq<char>)
    ensures
        valgt(ord, belop_kr, grunn) is Buy <==> belop_kr > 0 && (ord == "KJØP"@ || ord == "KJOP"@),
        valgt(ord, belop_kr, grunn) is Sell <==> belop_kr > 0 && ord == "SELG"@,
        valgt(ord, belop_kr, grunn) matches Beslutning::Buy { amount_kr, reason } ==> amount_kr == belop_kr && reason
            == grunn,
        valgt(ord, belop_kr, grunn) matches Beslutning::Sell { amount_kr, reason } ==> amount_kr == belop_kr && reason
            == grunn,
        valgt(ord, belop_kr, grunn) matches Beslutning::Hold { reason } ==> reason == grunn,
{
    reveal_strlit("KJØP");
    reveal_strlit("KJOP");
    reveal_strlit("SELG");
    assert("KJØP"@[0] == 'K' && "KJOP"@[0] == 'K' && "SELG"@[0] == 'S');
}

/// The report is the text of all the blocks of text, in their order; blocks of
/// another kind add nothing.
pub proof fn law_tekstblokkene(l: Seq<JsonView>, b: JsonView, t: Seq<char>)
    requires
        b.felt_tekst("text"@) == Some(t),
    ensures
        b.felt_tekst("type"@) == Some("text"@) ==> tekstblokker(l.push(b)) == tekstblokker(l) + t,
        b.felt_tekst("type"@) != Some("text"@) ==> tekstblokker(l.push(b)) == tekstblokker(l),
        tekstblokker(Seq::empty()) == Seq::<char>::empty(),
{
    assert(l.push(b).drop_last() =~= l);
}

/// The model is the first on the list whose name says `-opus-`.
pub proof fn law_forste_modell(l: Seq<JsonView>, k: int)
    requires
        0 <= k < l.len(),
        l[k].felt_tekst("id"@) is Some,
        text::has(l[k].felt_tekst("id"@)->0, "-opus-"@),
        forall|i: int|
            0 <= i < k ==> ((#[trigger] l[i]).felt_tekst("id"@) matches Some(t) ==> !text::has(t, "-opus-"@)),
    ensures
        modell_i(l) == l[k].felt_tekst("id"@),
    decreases l.len(),
{
    if k > 0 {
        let r = l.skip(1);
        assert forall|i: int| 0 <= i < k - 1 implies ((#[trigger] r[i]).felt_tekst("id"@) matches Some(t) ==> !text::has(
            t,
            "-opus-"@,
        )) by {
            assert(r[i] == l[i + 1]);
        }
        assert(l[0].felt_tekst("id"@) matches Some(t) ==> !text::has(t, "-opus-"@));
        law_forste_modell(r, k - 1);
    }
}

}
