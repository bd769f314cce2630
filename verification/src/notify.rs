//! Messages to a telephone, and commands from it.
use vstd::prelude::*;

use crate::config::NotifyCfg;
use crate::json;
use crate::json::{Json, JsonView};
use crate::state::Flags;
use crate::text;
use crate::text::{chars_of, copy_text, same, slice, string_of, three, two, without_end};

verus! {

/// What is wrong with the settings of the messages, given whether the token of
/// Telegram is known.
pub open spec fn varselfeil(cfg: &NotifyCfg, har_token: bool) -> Option<Seq<char>> {
    if cfg.provider@ == "ntfy"@ {
        if cfg.ntfy_topic@.len() == 0 {
            Some("notify.provider er \"ntfy\", men notify.ntfy_topic er tom"@)
        } else {
            None
        }
    } else if cfg.provider@ == "telegram"@ {
        if !har_token {
            Some("notify.provider er \"telegram\", men miljøvariabelen TELEGRAM_BOT_TOKEN er ikke satt"@)
        } else if cfg.telegram_chat_id@.len() == 0 {
            Some("notify.provider er \"telegram\", men notify.telegram_chat_id er tom"@)
        } else {
            None
        }
    } else {
        Some("ukjent varseltilbyder: "@ + cfg.provider@ + " (bruk \"ntfy\" eller \"telegram\")"@)
    }
}

/// How a message is sent.
#[derive(Debug)]
pub enum Sending {
    /// To an address, the message as it is.
    Ntfy { url: String, kropp: String },
    /// To an address, the message in JSON.
    Telegram { url: String, kropp: String },
}

/// The sender of messages.
#[derive(Debug)]
pub struct Notifier {
    pub ntfy: bool,
    pub ntfy_url: String,
    pub token: String,
    pub chat_id: String,
}

pub open spec fn telegram_json(chat_id: Seq<char>, melding: Seq<char>) -> JsonView {
    JsonView::Obj(
        seq![("chat_id"@, JsonView::Str(chat_id)), ("text"@, JsonView::Str("📈 b-rs\n"@ + melding))],
    )
}

impl Notifier {
    /// The sender of the settings, or what is wrong with them.
    pub fn new(cfg: &NotifyCfg, token: Option<&str>) -> (r: Result<Notifier, String>)
        ensures
            (match varselfeil(cfg, token is Some) {
                Some(e) => r is Err && r->Err_0@ == e,
                None => {
                    &&& r is Ok
                    &&& r->Ok_0.ntfy == (cfg.provider@ == "ntfy"@)
                    &&& r->Ok_0.ntfy_url@ == text::strip_end(cfg.ntfy_server@, '/') + "/"@ + cfg.ntfy_topic@
                    &&& r->Ok_0.chat_id@ == cfg.telegram_chat_id@
                    &&& token matches Some(t) ==> r->Ok_0.token@ == t@
                },
            }),
    {
        let ntfy: bool = same(cfg.provider.as_str(), "ntfy");
        if ntfy {
            if cfg.ntfy_topic.as_str().unicode_len() == 0 {
                return Err("notify.provider er \"ntfy\", men notify.ntfy_topic er tom".to_owned());
            }
        } else if same(cfg.provider.as_str(), "telegram") {
            if token.is_none() {
                return Err(
                    "notify.provider er \"telegram\", men miljøvariabelen TELEGRAM_BOT_TOKEN er ikke satt".to_owned(),
                );
            }
            if cfg.telegram_chat_id.as_str().unicode_len() == 0 {
                return Err("notify.provider er \"telegram\", men notify.telegram_chat_id er tom".to_owned());
            }
        } else {
            return Err(
                three("ukjent varseltilbyder: ", cfg.provider.as_str(), " (bruk \"ntfy\" eller \"telegram\")"),
            );
        }
        let server: String = without_end(cfg.ntfy_server.as_str(), '/');
        Ok(
            Notifier {
                ntfy,
                ntfy_url: three(server.as_str(), "/", cfg.ntfy_topic.as_str()),
                token: match token {
                    Some(t) => t.to_owned(),
                    None => "".to_owned(),
                },
                chat_id: copy_text(&cfg.telegram_chat_id),
            },
        )
    }

    /// How a message is sent.
    pub fn send(&self, melding: &str) -> (r: Sending)
        ensures
            (match r {
                Sending::Ntfy { url, kropp } => self.ntfy && url@ == self.ntfy_url@ && kropp@ == melding@,
                Sending::Telegram { url, kropp } => !self.ntfy && url@ == "https://api.telegram.org/bot"@
                    + self.token@ + "/sendMessage"@ && kropp@ == json::json_kompakt(
                    json::lagt(telegram_json(self.chat_id@, melding@)),
                ),
            }),
    {
        if self.ntfy {
            Sending::Ntfy { url: copy_text(&self.ntfy_url), kropp: melding.to_owned() }
        } else {
            let tekst: String = two("📈 b-rs\n", melding);
            let l: Vec<(String, Json)> = vec![
                json::felt_av("chat_id", json::tekst(self.chat_id.as_str())),
                json::felt_av("text", json::tekst(tekst.as_str())),
            ];
            assert(json::par(l@) =~= telegram_json(self.chat_id@, melding@)->Obj_0);
            Sending::Telegram {
                url: three("https://api.telegram.org/bot", self.token.as_str(), "/sendMessage"),
                kropp: json::skriv(&json::objekt(l)),
            }
        }
    }
}

// ---------------------------------------------------------------------------
// Commands
// ---------------------------------------------------------------------------

/// The topic that commands come on: its own, or that of the messages with
/// "-styr" behind it; none where there is neither.
pub open spec fn styreemne(cfg: &NotifyCfg) -> Option<Seq<char>> {
    if cfg.control_topic@.len() > 0 {
        Some(cfg.control_topic@)
    } else if cfg.ntfy_topic@.len() > 0 {
        Some(cfg.ntfy_topic@ + "-styr"@)
    } else {
        None
    }
}

pub fn styre_emne(cfg: &NotifyCfg) -> (r: Option<String>)
    ensures
        (match styreemne(cfg) {
            Some(e) => r is Some && r->0@ == e,
            None => r is None,
        }),
{
    if cfg.control_topic.as_str().unicode_len() > 0 {
        Some(copy_text(&cfg.control_topic))
    } else if cfg.ntfy_topic.as_str().unicode_len() > 0 {
        Some(two(cfg.ntfy_topic.as_str(), "-styr"))
    } else {
        None
    }
}

/// The address that commands are read from.
pub fn styre_url(cfg: &NotifyCfg, emne: &str) -> (r: String)
    ensures
        r@ == text::strip_end(cfg.ntfy_server@, '/') + "/"@ + (emne@ + "/json"@),
{
    let server: String = without_end(cfg.ntfy_server.as_str(), '/');
    let hale: String = two(emne, "/json");
    three(server.as_str(), "/", hale.as_str())
}

/// The whole lines of what has been received, trimmed and without the empty
/// ones, and what is left behind the last of them.
pub open spec fn hele_linjer(s: Seq<char>) -> (Seq<Seq<char>>, Seq<char>)
    decreases s.len(),
{
    match text::first_char(s, '\n', 0) {
        Some(i) => if 0 <= i < s.len() {
            let (l, rest) = hele_linjer(s.skip(i + 1));
            let linje = text::trimmed(s.take(i));
            (
                if linje.len() > 0 {
                    seq![linje] + l
                } else {
                    l
                },
                rest,
            )
        } else {
            (Seq::empty(), s)
        },
        None => (Seq::empty(), s),
    }
}

/// Splits what has been received into whole lines and the rest.
pub fn del_linjer(mottatt: &str) -> (r: (Vec<String>, String))
    ensures
        (text::views(r.0@), r.1@) == hele_linjer(mottatt@),
{
    let cs: Vec<char> = chars_of(mottatt);
    let n: usize = cs.len();
    let ghost alle = hele_linjer(mottatt@);
    let mut ut: Vec<String> = Vec::new();
    let mut fra: usize = 0;
    assert(cs@.skip(0) =~= mottatt@);
    assert(text::views(ut@) + alle.0 =~= alle.0);
    loop
        invariant
            fra <= n,
            n == cs@.len(),
            text::views(ut@) + hele_linjer(cs@.skip(fra as int)).0 == alle.0,
            hele_linjer(cs@.skip(fra as int)).1 == alle.1,
            alle == hele_linjer(mottatt@),
        decreases n - fra,
    {
        let rest: Vec<char> = slice(cs.as_slice(), fra, n);
        assert(rest@ =~= cs@.skip(fra as int));
        proof {
            text::lemma_first_char(rest@, '\n', 0);
        }
        match text::find_char(rest.as_slice(), '\n', 0) {
            None => {
                assert(text::views(ut@) + Seq::<Seq<char>>::empty() =~= text::views(ut@));
                return (ut, string_of(rest.as_slice()));
            },
            Some(i) => {
                let ghost for_ = text::views(ut@);
                let del: Vec<char> = slice(rest.as_slice(), 0, i);
                assert(del@ =~= rest@.take(i as int));
                let linje: Vec<char> = text::trim(del.as_slice());
                assert(rest@.skip(i + 1) =~= cs@.skip(fra + i + 1));
                if linje.len() > 0 {
                    ut.push(string_of(linje.as_slice()));
                    assert(text::views(ut@) =~= for_.push(linje@));
                }
                assert(text::views(ut@) + hele_linjer(rest@.skip(i + 1)).0 =~= for_ + hele_linjer(rest@).0);
                fra = fra + i + 1;
            },
        }
    }
}

/// The text of a message event; none for other events.
pub open spec fn hendelsestekst(linje: Seq<char>) -> Option<Seq<char>> {
    match json::json_lest(linje) {
        None => None,
        Some(v) => if v.felt_tekst("event"@) == Some("message"@) {
            Some(
                match v.felt_tekst("message"@) {
                    Some(m) => m,
                    None => ""@,
                },
            )
        } else {
            None
        },
    }
}

pub fn les_hendelse(linje: &str) -> (r: Option<String>)
    ensures
        (match hendelsestekst(linje@) {
            Some(m) => r is Some && r->0@ == m,
            None => r is None,
        }),
{
    let v: Json = match json::les(linje) {
        Some(v) => v,
        None => return None,
    };
    match v.felt_tekst("event") {
        None => None,
        Some(e) => {
            if !same(e, "message") {
                return None;
            }
            match v.felt_tekst("message") {
                Some(m) => Some(m.to_owned()),
                None => Some("".to_owned()),
            }
        },
    }
}

/// A command from the telephone.
#[derive(Debug, Clone, Copy, PartialEq, Eq, Structural)]
pub enum Kommando {
    Stopp,
    Pause,
    Fortsett,
}

/// The command that a text is, whatever the case of its letters.
pub open spec fn kommando_av(raa: Seq<char>) -> Option<Kommando> {
    let c = text::uppercase(text::trimmed(raa));
    if c == "STOPP"@ || c == "STOP"@ || c == "KILL"@ {
        Some(Kommando::Stopp)
    } else if c == "PAUSE"@ {
        Some(Kommando::Pause)
    } else if c == "FORTSETT"@ || c == "START"@ || c == "RESUME"@ || c == "GJENOPPTA"@ {
        Some(Kommando::Fortsett)
    } else {
        None
    }
}

pub open spec fn etter(f: Flags, k: Kommando) -> Flags {
    match k {
        Kommando::Stopp => Flags { killed: true, ..f },
        Kommando::Pause => Flags { paused: true, ..f },
        Kommando::Fortsett => Flags { killed: false, paused: false, ..f },
    }
}

pub open spec fn kommandosvar(k: Kommando) -> Seq<char> {
    match k {
        Kommando::Stopp => "⛔ KILL SWITCH slått PÅ fra mobil — all handel stoppet."@,
        Kommando::Pause => "⏸ Strategien satt på pause fra mobil."@,
        Kommando::Fortsett => "▶ Handel gjenopptatt fra mobil (kill switch av, strategi i gang)."@,
    }
}

/// Carries out a command from the telephone: what is answered, and what the log
/// says. An unknown command does nothing.
pub fn handle_command(raa: &str, flags: &mut Flags) -> (r: Option<(&'static str, String)>)
    ensures
        (match kommando_av(raa@) {
            None => r is None && *final(flags) == *old(flags),
            Some(k) => r is Some && *final(flags) == etter(*old(flags), k) && (r->0).0@ == kommandosvar(k)
                && (r->0).1@ == "📱 Fjernkommando: "@ + text::uppercase(text::trimmed(raa@)) + (" → "@
                + kommandosvar(k)),
        }),
{
    let t: String = text::text_trim(raa);
    let c: String = text::to_uppercase(t.as_str());
    let s: &str = c.as_str();
    let svar: &'static str = if same(s, "STOPP") || same(s, "STOP") || same(s, "KILL") {
        flags.killed = true;
        "⛔ KILL SWITCH slått PÅ fra mobil — all handel stoppet."
    } else if same(s, "PAUSE") {
        flags.paused = true;
        "⏸ Strategien satt på pause fra mobil."
    } else if same(s, "FORTSETT") || same(s, "START") || same(s, "RESUME") || same(s, "GJENOPPTA") {
        flags.killed = false;
        flags.paused = false;
        "▶ Handel gjenopptatt fra mobil (kill switch av, strategi i gang)."
    } else {
        return None;
    };
    let hale: String = two(" → ", svar);
    let logg: String = three("📱 Fjernkommando: ", s, hale.as_str());
    Some((svar, logg))
}

/// Stopping and pausing only ever make trading safer: no flag that is up is
/// taken down, and a stop is a stop.
pub proof fn law_trygge_kommandoer(f: Flags)
    ensures
        etter(f, Kommando::Stopp).killed,
        f.paused ==> etter(f, Kommando::Stopp).paused,
        etter(f, Kommando::Pause).paused,
        f.killed ==> etter(f, Kommando::Pause).killed,
        forall|k: Kommando| (#[trigger] etter(f, k)).quit == f.quit,
{
}

/// A stop and a pause each set one switch and leave the other; going on clears
/// both.
pub proof fn law_bryterne(f: Flags)
    ensures
        etter(f, Kommando::Stopp).killed && etter(f, Kommando::Stopp).paused == f.paused,
        etter(f, Kommando::Pause).paused && etter(f, Kommando::Pause).killed == f.killed,
        !etter(f, Kommando::Fortsett).killed && !etter(f, Kommando::Fortsett).paused,
{
}

/// The words of each command, with blanks around them or not and in letters of
/// either size; any other word is no command.
pub proof fn law_kommandoordene(raa: Seq<char>)
    ensures
        kommando_av(raa) == Some(Kommando::Stopp) <==> seq!["STOPP"@, "STOP"@, "KILL"@].contains(
            text::uppercase(text::trimmed(raa)),
        ),
        kommando_av(raa) == Some(Kommando::Pause) <==> text::uppercase(text::trimmed(raa)) == "PAUSE"@,
        kommando_av(raa) == Some(Kommando::Fortsett) <==> seq!["FORTSETT"@, "START"@, "RESUME"@, "GJENOPPTA"@].contains(
            text::uppercase(text::trimmed(raa)),
        ),
{
    reveal_strlit("STOPP");
    reveal_strlit("STOP");
    reveal_strlit("KILL");
    reveal_strlit("PAUSE");
    reveal_strlit("FORTSETT");
    reveal_strlit("START");
    reveal_strlit("RESUME");
    reveal_strlit("GJENOPPTA");
    assert("STOPP"@[0] == 'S' && "STOP"@[0] == 'S' && "KILL"@[0] == 'K' && "PAUSE"@[0] == 'P' && "FORTSETT"@[0] == 'F'
        && "START"@[0] == 'S' && "RESUME"@[0] == 'R' && "GJENOPPTA"@[0] == 'G');
    assert("STOPP"@[2] == 'O' && "STOP"@[2] == 'O' && "START"@[2] == 'A');
    let stopp = seq!["STOPP"@, "STOP"@, "KILL"@];
    let gaa = seq!["FORTSETT"@, "START"@, "RESUME"@, "GJENOPPTA"@];
    assert(stopp[0] == "STOPP"@ && stopp[1] == "STOP"@ && stopp[2] == "KILL"@);
    assert(gaa[0] == "FORTSETT"@ && gaa[1] == "START"@ && gaa[2] == "RESUME"@ && gaa[3] == "GJENOPPTA"@);
}

/// What has been received is told line by line: the first line, unless it is
/// blank, and then what the rest tells. What has no line end yet waits.
pub proof fn law_linjene(linje: Seq<char>, rest: Seq<char>)
    requires
        !linje.contains('\n'),
    ensures
        hele_linjer(linje) == (Seq::<Seq<char>>::empty(), linje),
        hele_linjer(linje + seq!['\n'] + rest).1 == hele_linjer(rest).1,
        text::trimmed(linje).len() > 0 ==> hele_linjer(linje + seq!['\n'] + rest).0 == seq![text::trimmed(linje)]
            + hele_linjer(rest).0,
        text::trimmed(linje).len() == 0 ==> hele_linjer(linje + seq!['\n'] + rest).0 == hele_linjer(rest).0,
{
    let s = linje + seq!['\n'] + rest;
    assert forall|j: int| 0 <= j < linje.len() implies s[j] != '\n' by {
        assert(linje[j] != '\n');
    }
    text::lemma_first_char_is(s, '\n', 0, linje.len() as int);
    assert(s.take(linje.len() as int) =~= linje);
    assert(s.skip(linje.len() as int + 1) =~= rest);
    text::lemma_first_char(linje, '\n', 0);
}

/// Messages can be sent exactly with a provider that is known and has what it
/// needs: a topic for ntfy, a token and a chat for Telegram.
pub proof fn law_varsler_kan_sendes(cfg: &NotifyCfg, har_token: bool)
    ensures
        varselfeil(cfg, har_token) is None <==> (cfg.provider@ == "ntfy"@ && cfg.ntfy_topic@.len() > 0) || (
        cfg.provider@ == "telegram"@ && har_token && cfg.telegram_chat_id@.len() > 0),
{
    reveal_strlit("ntfy");
    reveal_strlit("telegram");
    assert("ntfy"@.len() == 4 && "telegram"@.len() == 8);
}

}
