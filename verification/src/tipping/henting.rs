//! Fetching the history: which sources to try, and how far back to go.
use vstd::prelude::*;

use crate::dato;
use crate::dato::{iso_uke, Dato};
use crate::json::{Json, JsonView};
use crate::number_text;
use crate::text;
use crate::text::{chars_of, copy_text, push_all, push_text, string_of};
use crate::tipping::historikk;
use crate::tipping::historikk::{Trekning, TrekningInnhold};
use crate::tipping::spill::Spill;
use crate::tipping::tolk;

verus! {

/// Which sources this version knows.
pub const KILDE_VERSJON: &'static str = "kildeoppsett v4 · Veikkaus draw-results + NT-side";

/// The pattern of Norsk Tipping's draw addresses; an empty id asks for the last
/// draw.
pub const ENDEPUNKT_MAL: &'static str = "https://www.norsk-tipping.no/api-{spill}/getResultInfo.json?drawID={id}";

pub const ENDEPUNKT_MAL_2: &'static str = "https://www.norsk-tipping.no/api/{spill}/getResultInfo.json?drawID={id}";

pub const VEIKKAUS_BASE: &'static str = "https://www.veikkaus.fi/api/draw-results/v1";

pub const VEIKKAUS_BASE_2: &'static str = "https://www.veikkaus.fi/api/draw-games/v1";

/// Patterns that are only tried to see what answers.
pub const SONDE_1: &'static str = "https://api.norsk-tipping.no/DrawGameResultsAPI/v1/api/results/{spill}/latest";

pub const SONDE_2: &'static str = "https://www.norsk-tipping.no/api/results/v1/{spill}/latest";

pub const SONDE_3: &'static str = "https://www.norsk-tipping.no/api/draw-results/v1/games/{spill}/draws";

// ---------------------------------------------------------------------------
// Addresses
// ---------------------------------------------------------------------------

/// The address of a week of draws.
pub open spec fn uke_adresse(base: Seq<char>, navn: Seq<char>, aar: int, uke: nat) -> Seq<char> {
    base + "/games/"@ + navn + "/draws/by-week/"@ + number_text::signed_decimal(aar) + "-W"@
        + number_text::padded(uke, 2)
}

/// The address of the week, by the ISO calendar, that a day lies in.
pub open spec fn dagens_uke_adresse(base: Seq<char>, navn: Seq<char>, dag: int) -> Seq<char> {
    uke_adresse(base, navn, dato::aar_av(dato::torsdag(dag)), dato::ukenummer(dag))
}

/// The address of the week, by the ISO calendar, that a day lies in.
pub fn veikkaus_uke_url(base: &str, spillnavn: &str, dato: Dato) -> (r: String)
    requires
        dato.gyldig(),
    ensures
        r@ == dagens_uke_adresse(base@, spillnavn@, dato.dag as int),
{
    let (aar, uke): (i32, u32) = iso_uke(dato);
    proof {
        dato::law_ett_aar(dato::torsdag(dato.dag as int), aar as int, aar as int);
    }
    let mut ut: Vec<char> = chars_of(base);
    push_text(&mut ut, "/games/");
    push_text(&mut ut, spillnavn);
    push_text(&mut ut, "/draws/by-week/");
    let a: Vec<char> = number_text::write_signed(aar as i128);
    push_all(&mut ut, a.as_slice());
    push_text(&mut ut, "-W");
    let u: Vec<char> = number_text::write_padded(uke as u128, 2);
    push_all(&mut ut, u.as_slice());
    assert(ut@ == uke_adresse(base@, spillnavn@, aar as int, uke as nat));
    string_of(ut.as_slice())
}

pub open spec fn id_tekst(id: Option<u64>) -> Seq<char> {
    match id {
        Some(i) => number_text::decimal(i as nat),
        None => Seq::empty(),
    }
}

/// A pattern with the game and the id filled in.
pub open spec fn utfylt(mal: Seq<char>, spill: Spill, id: Option<u64>) -> Seq<char> {
    text::replaced(text::replaced(mal, "{spill}"@, spill.api_navn_spec()), "{id}"@, id_tekst(id))
}

/// The address of a draw; without an id, that of the last one.
pub fn trekning_url(mal: &str, spill: Spill, id: Option<u64>) -> (r: String)
    ensures
        r@ == utfylt(mal@, spill, id),
{
    proof {
        reveal_strlit("{spill}");
        reveal_strlit("{id}");
    }
    let med_spill: String = text::text_replace(mal, "{spill}", spill.api_navn());
    let nummer: String = match id {
        Some(i) => number_text::decimal_text(i as u128),
        None => String::new(),
    };
    assert(id is None ==> nummer@ =~= Seq::empty());
    text::text_replace(med_spill.as_str(), "{id}", nummer.as_str())
}

// ---------------------------------------------------------------------------
// Sources
// ---------------------------------------------------------------------------

/// A place that may have the history.
#[derive(Debug)]
pub enum Kilde {
    Veikkaus { navn: String, base: String },
    Side,
    DrawId { mal: String },
}

/// The same, for contracts.
pub enum KildeInnhold {
    Veikkaus { navn: Seq<char>, base: Seq<char> },
    Side,
    DrawId { mal: Seq<char> },
}

impl View for Kilde {
    type V = KildeInnhold;

    open spec fn view(&self) -> KildeInnhold {
        match self {
            Kilde::Veikkaus { navn, base } => KildeInnhold::Veikkaus { navn: navn@, base: base@ },
            Kilde::Side => KildeInnhold::Side,
            Kilde::DrawId { mal } => KildeInnhold::DrawId { mal: mal@ },
        }
    }
}

pub open spec fn kilde_innhold(l: Seq<Kilde>) -> Seq<KildeInnhold> {
    l.map_values(|k: Kilde| k@)
}

pub open spec fn veikkaus_kilder(navn: Seq<Seq<char>>) -> Seq<KildeInnhold>
    decreases navn.len(),
{
    if navn.len() == 0 {
        Seq::empty()
    } else {
        veikkaus_kilder(navn.drop_last()) + seq![
            KildeInnhold::Veikkaus { navn: navn.last(), base: VEIKKAUS_BASE@ },
            KildeInnhold::Veikkaus { navn: navn.last(), base: VEIKKAUS_BASE_2@ },
        ]
    }
}

/// The sources of a game in the order in which they are tried. With a pattern
/// of the user's own there is only that.
pub open spec fn kilder_for(spill: Spill, mal: Option<Seq<char>>) -> Seq<KildeInnhold> {
    match mal {
        Some(m) => seq![KildeInnhold::DrawId { mal: m }],
        None => veikkaus_kilder(spill.veikkaus_spec()) + seq![
            KildeInnhold::Side,
            KildeInnhold::DrawId { mal: ENDEPUNKT_MAL@ },
            KildeInnhold::DrawId { mal: ENDEPUNKT_MAL_2@ },
        ],
    }
}

pub open spec fn mal_tekst(mal: Option<&str>) -> Option<Seq<char>> {
    match mal {
        Some(m) => Some(m@),
        None => None,
    }
}

/// The sources of a game in the order in which they are tried.
pub fn kilder(spill: Spill, endepunkt_mal: Option<&str>) -> (r: Vec<Kilde>)
    ensures
        kilde_innhold(r@) == kilder_for(spill, mal_tekst(endepunkt_mal)),
{
    let mut ut: Vec<Kilde> = Vec::new();
    match endepunkt_mal {
        Some(m) => {
            ut.push(Kilde::DrawId { mal: m.to_owned() });
            assert(kilde_innhold(ut@) =~= kilder_for(spill, mal_tekst(endepunkt_mal)));
            ut
        },
        None => {
            let navn: Vec<&'static str> = spill.veikkaus_navn();
            let ghost n = spill.veikkaus_spec();
            let mut i: usize = 0;
            assert(n.take(0) =~= Seq::empty());
            assert(kilde_innhold(ut@) =~= veikkaus_kilder(n.take(0)));
            while i < navn.len()
                invariant
                    i <= navn@.len(),
                    n.len() == navn@.len(),
                    forall|j: int| 0 <= j < navn@.len() ==> (#[trigger] navn@[j])@ == n[j],
                    kilde_innhold(ut@) == veikkaus_kilder(n.take(i as int)),
                decreases navn.len() - i,
            {
                let ghost before = kilde_innhold(ut@);
                assert(n.take(i + 1).drop_last() =~= n.take(i as int));
                assert(n.take(i + 1).last() == navn@[i as int]@);
                ut.push(
                    Kilde::Veikkaus { navn: navn[i].to_owned(), base: VEIKKAUS_BASE.to_owned() },
                );
                ut.push(
                    Kilde::Veikkaus { navn: navn[i].to_owned(), base: VEIKKAUS_BASE_2.to_owned() },
                );
                assert(kilde_innhold(ut@) =~= before + seq![
                    KildeInnhold::Veikkaus { navn: navn@[i as int]@, base: VEIKKAUS_BASE@ },
                    KildeInnhold::Veikkaus { navn: navn@[i as int]@, base: VEIKKAUS_BASE_2@ },
                ]);
                i += 1;
            }
            assert(n.take(i as int) =~= n);
            ut.push(Kilde::Side);
            ut.push(Kilde::DrawId { mal: ENDEPUNKT_MAL.to_owned() });
            ut.push(Kilde::DrawId { mal: ENDEPUNKT_MAL_2.to_owned() });
            assert(kilde_innhold(ut@) =~= kilder_for(spill, None));
            ut
        },
    }
}

/// What is noted of a source that gave nothing: an error, or no draws.
pub open spec fn feiltekst(k: KildeInnhold, feil: Option<Seq<char>>) -> Seq<char> {
    let navn = match k {
        KildeInnhold::Veikkaus { navn, base } => "Veikkaus "@ + navn + " ("@ + base + ")"@,
        KildeInnhold::Side => "Norsk Tippings resultatside"@,
        KildeInnhold::DrawId { mal } => "Norsk Tipping ("@ + mal + ")"@,
    };
    let utfall = match feil {
        Some(f) => f,
        None => match k {
            KildeInnhold::Side => "fant ingen trekninger i HTML-en"@,
            _ => "ingen trekninger"@,
        },
    };
    navn + ": "@ + utfall
}

pub fn kildefeil(kilde: &Kilde, feil: Option<&str>) -> (r: String)
    ensures
        r@ == feiltekst(kilde@, mal_tekst(feil)),
{
    let mut ut: Vec<char> = Vec::new();
    match kilde {
        Kilde::Veikkaus { navn, base } => {
            push_text(&mut ut, "Veikkaus ");
            assert(ut@ =~= "Veikkaus "@);
            push_text(&mut ut, navn.as_str());
            push_text(&mut ut, " (");
            push_text(&mut ut, base.as_str());
            push_text(&mut ut, ")");
        },
        Kilde::Side => {
            push_text(&mut ut, "Norsk Tippings resultatside");
            assert(ut@ =~= "Norsk Tippings resultatside"@);
        },
        Kilde::DrawId { mal } => {
            push_text(&mut ut, "Norsk Tipping (");
            assert(ut@ =~= "Norsk Tipping ("@);
            push_text(&mut ut, mal.as_str());
            push_text(&mut ut, ")");
        },
    }
    push_text(&mut ut, ": ");
    match feil {
        Some(f) => {
            push_text(&mut ut, f);
        },
        None => match kilde {
            Kilde::Side => {
                push_text(&mut ut, "fant ingen trekninger i HTML-en");
            },
            _ => {
                push_text(&mut ut, "ingen trekninger");
            },
        },
    }
    string_of(ut.as_slice())
}

/// What is said where no source had a draw: the notes on all of them.
pub open spec fn alle_feilet_tekst(spill: Spill, feil: Seq<Seq<char>>) -> Seq<char> {
    "alle kilder feilet for "@ + spill.navn_spec()
        + " — kjør `b-tipping sonde` og se hva som svarer. Detaljer: "@ + text::joined(feil, " · "@)
}

/// What is said where no source had a draw: the notes on all of them.
pub fn alle_feilet(spill: Spill, feil: &Vec<String>) -> (r: String)
    ensures
        r@ == alle_feilet_tekst(spill, text::views(feil@)),
{
    let mut ut: Vec<char> = chars_of("alle kilder feilet for ");
    push_text(&mut ut, spill.navn());
    push_text(&mut ut, " — kjør `b-tipping sonde` og se hva som svarer. Detaljer: ");
    let f: String = text::join_text(feil, " · ");
    push_text(&mut ut, f.as_str());
    string_of(ut.as_slice())
}

// ---------------------------------------------------------------------------
// From source to source
// ---------------------------------------------------------------------------

/// A search through the sources of a game.
pub struct Kildesok {
    pub spill: Spill,
    /// Whether the only source is a pattern of the user's own.
    pub egen: bool,
    pub kilder: Vec<Kilde>,
    /// How many sources have been tried.
    pub provd: usize,
    /// What was noted of each of them.
    pub feil: Vec<String>,
}

/// The same, for contracts.
#[verifier::ext_equal]
pub struct KildesokInnhold {
    pub spill: Spill,
    pub egen: bool,
    pub kilder: Seq<KildeInnhold>,
    pub provd: int,
    pub feil: Seq<Seq<char>>,
}

impl View for Kildesok {
    type V = KildesokInnhold;

    open spec fn view(&self) -> KildesokInnhold {
        KildesokInnhold {
            spill: self.spill,
            egen: self.egen,
            kilder: kilde_innhold(self.kilder@),
            provd: self.provd as int,
            feil: text::views(self.feil@),
        }
    }
}

pub open spec fn sok_start(spill: Spill, mal: Option<Seq<char>>) -> KildesokInnhold {
    KildesokInnhold { spill, egen: mal is Some, kilder: kilder_for(spill, mal), provd: 0, feil: Seq::empty() }
}

/// What a source or a whole search came to: draws or an error.
pub open spec fn utfall(r: Result<Vec<Trekning>, String>) -> Result<Seq<TrekningInnhold>, Seq<char>> {
    match r {
        Ok(t) => Ok(historikk::innhold(t@)),
        Err(e) => Err(e@),
    }
}

pub open spec fn mulig_utfall(
    r: Option<Result<Vec<Trekning>, String>>,
) -> Option<Result<Seq<TrekningInnhold>, Seq<char>>> {
    match r {
        Some(u) => Some(utfall(u)),
        None => None,
    }
}

pub open spec fn har_trekninger(svar: Result<Seq<TrekningInnhold>, Seq<char>>) -> bool {
    svar matches Ok(t) && t.len() > 0
}

/// What is noted of a source that gave no draws.
pub open spec fn notert(k: KildeInnhold, svar: Result<Seq<TrekningInnhold>, Seq<char>>) -> Seq<char> {
    feiltekst(
        k,
        match svar {
            Ok(_) => None,
            Err(e) => Some(e),
        },
    )
}

/// The search after the answer of the source whose turn it was, and what it came
/// to where it is over: a pattern of the user's own has the last word, and so
/// have the first draws; when no source is left, all notes are told.
pub open spec fn besvart(
    s: KildesokInnhold,
    svar: Result<Seq<TrekningInnhold>, Seq<char>>,
) -> (KildesokInnhold, Option<Result<Seq<TrekningInnhold>, Seq<char>>>) {
    if s.egen || har_trekninger(svar) {
        (s, Some(svar))
    } else {
        let feil = s.feil.push(notert(s.kilder[s.provd], svar));
        (
            KildesokInnhold { provd: s.provd + 1, feil, ..s },
            if s.provd + 1 < s.kilder.len() {
                None
            } else {
                Some(Err(alle_feilet_tekst(s.spill, feil)))
            },
        )
    }
}

impl Kildesok {
    pub fn ny(spill: Spill, endepunkt_mal: Option<&str>) -> (r: Kildesok)
        ensures
            r@ == sok_start(spill, mal_tekst(endepunkt_mal)),
            r@.provd < r@.kilder.len(),
    {
        let egen: bool = match endepunkt_mal {
            Some(_) => true,
            None => false,
        };
        let r: Kildesok = Kildesok {
            spill,
            egen,
            kilder: kilder(spill, endepunkt_mal),
            provd: 0,
            feil: Vec::new(),
        };
        assert(r@ =~= sok_start(spill, mal_tekst(endepunkt_mal)));
        r
    }

    /// The source whose turn it is.
    pub fn neste(&self) -> (r: Option<&Kilde>)
        ensures
            match r {
                Some(k) => self@.provd < self@.kilder.len() && k@ == self@.kilder[self@.provd],
                None => self@.provd >= self@.kilder.len(),
            },
    {
        if self.provd < self.kilder.len() {
            Some(&self.kilder[self.provd])
        } else {
            None
        }
    }

    /// Takes the answer of the source whose turn it is, and says what the search
    /// came to where it is over.
    pub fn ta_imot(&mut self, svar: Result<Vec<Trekning>, String>) -> (r: Option<Result<Vec<Trekning>, String>>)
        requires
            old(self)@.provd < old(self)@.kilder.len(),
        ensures
            (final(self)@, mulig_utfall(r)) == besvart(old(self)@, utfall(svar)),
            r is None ==> final(self)@.provd < final(self)@.kilder.len(),
    {
        let ghost foer = self@;
        let antall: usize = self.kilder.len();
        if self.egen {
            return Some(svar);
        }
        let notat: String = match &svar {
            Ok(t) => {
                if t.len() > 0 {
                    return Some(svar);
                }
                kildefeil(&self.kilder[self.provd], None)
            },
            Err(e) => kildefeil(&self.kilder[self.provd], Some(e.as_str())),
        };
        assert(notat@ == notert(foer.kilder[foer.provd], utfall(svar)));
        self.feil.push(notat);
        self.provd = self.provd + 1;
        assert(self@ =~= besvart(foer, utfall(svar)).0);
        if self.provd < antall {
            None
        } else {
            Some(Err(alle_feilet(self.spill, &self.feil)))
        }
    }
}

/// The search after a row of answers, and what it came to with the first of them
/// that ended it.
pub open spec fn gjennomsokt(
    s: KildesokInnhold,
    svar: Seq<Result<Seq<TrekningInnhold>, Seq<char>>>,
) -> (KildesokInnhold, Option<Result<Seq<TrekningInnhold>, Seq<char>>>)
    decreases svar.len(),
{
    if svar.len() == 0 {
        (s, None)
    } else {
        let (t, slutt) = gjennomsokt(s, svar.drop_last());
        if slutt is Some {
            (t, slutt)
        } else {
            besvart(t, svar.last())
        }
    }
}

/// The notes on the sources that gave the answers, in their order.
pub open spec fn notater(
    kilder: Seq<KildeInnhold>,
    svar: Seq<Result<Seq<TrekningInnhold>, Seq<char>>>,
) -> Seq<Seq<char>> {
    Seq::new(svar.len(), |i: int| notert(kilder[i], svar[i]))
}

proof fn lemma_uten_trekninger(spill: Spill, svar: Seq<Result<Seq<TrekningInnhold>, Seq<char>>>)
    requires
        svar.len() <= kilder_for(spill, None).len(),
        forall|i: int| 0 <= i < svar.len() ==> !har_trekninger(#[trigger] svar[i]),
    ensures
        gjennomsokt(sok_start(spill, None), svar).0 == (KildesokInnhold {
            provd: svar.len() as int,
            feil: notater(kilder_for(spill, None), svar),
            ..sok_start(spill, None)
        }),
        gjennomsokt(sok_start(spill, None), svar).1 == (if 0 < svar.len() == kilder_for(spill, None).len() {
            Some(Err::<Seq<TrekningInnhold>, Seq<char>>(
                alle_feilet_tekst(spill, notater(kilder_for(spill, None), svar)),
            ))
        } else {
            None
        }),
    decreases svar.len(),
{
    let alle = kilder_for(spill, None);
    if svar.len() == 0 {
        assert(notater(alle, svar) =~= Seq::empty());
    } else {
        let f = svar.drop_last();
        assert forall|i: int| 0 <= i < f.len() implies !har_trekninger(#[trigger] f[i]) by {
            assert(f[i] == svar[i]);
        }
        lemma_uten_trekninger(spill, f);
        assert(!har_trekninger(svar[svar.len() - 1]));
        assert(notater(alle, svar) =~= notater(alle, f).push(notert(alle[f.len() as int], svar.last())));
    }
}

/// The draws of the first source that has any are what a search comes to.
pub proof fn law_forste_kilde_med_trekninger(
    spill: Spill,
    svar: Seq<Result<Seq<TrekningInnhold>, Seq<char>>>,
)
    requires
        0 < svar.len() <= kilder_for(spill, None).len(),
        forall|i: int| 0 <= i < svar.len() - 1 ==> !har_trekninger(#[trigger] svar[i]),
        har_trekninger(svar.last()),
    ensures
        gjennomsokt(sok_start(spill, None), svar).1 == Some(svar.last()),
{
    let f = svar.drop_last();
    assert forall|i: int| 0 <= i < f.len() implies !har_trekninger(#[trigger] f[i]) by {
        assert(f[i] == svar[i]);
    }
    lemma_uten_trekninger(spill, f);
}

/// Where no source has a draw, a search comes to the notes on all of them, in
/// the order in which they were tried.
pub proof fn law_ingen_kilde_har_trekninger(
    spill: Spill,
    svar: Seq<Result<Seq<TrekningInnhold>, Seq<char>>>,
)
    requires
        svar.len() == kilder_for(spill, None).len(),
        forall|i: int| 0 <= i < svar.len() ==> !har_trekninger(#[trigger] svar[i]),
    ensures
        gjennomsokt(sok_start(spill, None), svar).1 == Some(
            Err::<Seq<TrekningInnhold>, Seq<char>>(
                alle_feilet_tekst(spill, notater(kilder_for(spill, None), svar)),
            ),
        ),
{
    lemma_uten_trekninger(spill, svar);
}

/// With a pattern of the user's own, what it answers is what the search comes to.
pub proof fn law_egen_mal_avgjor(
    spill: Spill,
    mal: Seq<char>,
    svar: Result<Seq<TrekningInnhold>, Seq<char>>,
)
    ensures
        gjennomsokt(sok_start(spill, Some(mal)), seq![svar]).1 == Some(svar),
{
    reveal_with_fuel(gjennomsokt, 2);
    assert(seq![svar].drop_last() =~= Seq::empty());
}

// ---------------------------------------------------------------------------
// Going back week by week
// ---------------------------------------------------------------------------

/// Weeks without draws after which the search gives up.
pub const TOMME_UKER: usize = 26;

/// A walk back through the weeks.
pub struct Ukevandring {
    /// A day of the week to ask for next.
    pub dato: Dato,
    pub tomme_paa_rad: usize,
    pub trekninger: Vec<Trekning>,
}

/// Where a walk through the weeks stands: a day of the week to ask for next, the
/// weeks without draws since the last that had any, and what was found.
#[verifier::ext_equal]
pub struct UkevandringInnhold {
    pub dag: int,
    pub tomme: int,
    pub funnet: Seq<TrekningInnhold>,
}

impl View for Ukevandring {
    type V = UkevandringInnhold;

    open spec fn view(&self) -> UkevandringInnhold {
        UkevandringInnhold {
            dag: self.dato.dag as int,
            tomme: self.tomme_paa_rad as int,
            funnet: historikk::innhold(self.trekninger@),
        }
    }
}

/// What a week gave; a week that did not answer gave nothing.
pub open spec fn ukens_trekninger(svar: Option<Vec<Trekning>>) -> Seq<TrekningInnhold> {
    match svar {
        Some(l) => historikk::innhold(l@),
        None => Seq::empty(),
    }
}

/// The walk after one week more.
pub open spec fn uke_besvart(s: UkevandringInnhold, svar: Seq<TrekningInnhold>) -> UkevandringInnhold {
    UkevandringInnhold {
        dag: s.dag - 7,
        tomme: if svar.len() == 0 {
            s.tomme + 1
        } else {
            0
        },
        funnet: s.funnet + svar,
    }
}

/// The walk after a row of weeks.
pub open spec fn uker_besvart(s: UkevandringInnhold, svar: Seq<Seq<TrekningInnhold>>) -> UkevandringInnhold
    decreases svar.len(),
{
    if svar.len() == 0 {
        s
    } else {
        uke_besvart(uker_besvart(s, svar.drop_last()), svar.last())
    }
}

/// Whether a walk goes on: not past the first day, nor after half a year
/// without draws.
pub open spec fn uke_videre(s: UkevandringInnhold, fra: int) -> bool {
    s.dag >= fra && s.tomme < TOMME_UKER
}

/// A walk finds what all its weeks gave, goes back a week for each, and has
/// counted the weeks that gave nothing since the last that gave something.
pub proof fn law_ukene_samles(s: UkevandringInnhold, for_: Seq<Seq<TrekningInnhold>>, siste: Seq<TrekningInnhold>, n: nat, fra: int)
    requires
        siste.len() > 0,
    ensures
        ({
            let t = uker_besvart(s, for_.push(siste) + Seq::new(n, |i: int| Seq::<TrekningInnhold>::empty()));
            &&& t.funnet == s.funnet + for_.flatten() + siste
            &&& t.dag == s.dag - 7 * (for_.len() + 1 + n)
            &&& t.tomme == n
            &&& uke_videre(t, fra) <==> n < 26 && t.dag >= fra
        }),
    decreases n,
{
    let tomme = Seq::new(n, |i: int| Seq::<TrekningInnhold>::empty());
    let alle = for_.push(siste) + tomme;
    if n == 0 {
        assert(alle =~= for_.push(siste));
        assert(alle.drop_last() =~= for_);
        lemma_ukene(s, for_);
    } else {
        law_ukene_samles(s, for_, siste, (n - 1) as nat, fra);
        assert(alle.drop_last() =~= for_.push(siste) + Seq::new(
            (n - 1) as nat,
            |i: int| Seq::<TrekningInnhold>::empty(),
        ));
        let u = uker_besvart(s, alle.drop_last());
        assert(u.funnet + Seq::<TrekningInnhold>::empty() =~= u.funnet);
    }
}

proof fn lemma_ukene(s: UkevandringInnhold, svar: Seq<Seq<TrekningInnhold>>)
    ensures
        uker_besvart(s, svar).funnet == s.funnet + svar.flatten(),
        uker_besvart(s, svar).dag == s.dag - 7 * svar.len(),
    decreases svar.len(),
{
    if svar.len() == 0 {
        assert(s.funnet + svar.flatten() =~= s.funnet);
    } else {
        let d = svar.drop_last();
        lemma_ukene(s, d);
        svar.lemma_flatten_and_flatten_alt_are_equivalent();
        d.lemma_flatten_and_flatten_alt_are_equivalent();
        assert(svar.flatten() =~= d.flatten() + svar.last());
        assert(s.funnet + d.flatten() + svar.last() =~= s.funnet + (d.flatten() + svar.last()));
    }
}

impl Ukevandring {
    pub open spec fn funnet(&self) -> Seq<TrekningInnhold> {
        historikk::innhold(self.trekninger@)
    }

    /// Begins with what the current week gave.
    pub fn ny(idag: Dato, forste: Vec<Trekning>) -> (r: Ukevandring)
        requires
            dato::FORSTE_DAG + 7 <= idag.dag <= dato::SISTE_DAG,
        ensures
            r.dato.dag == idag.dag - 7,
            r.tomme_paa_rad == 0,
            r.trekninger@ == forste@,
            r@ == (UkevandringInnhold { dag: idag.dag - 7, tomme: 0, funnet: historikk::innhold(forste@) }),
    {
        Ukevandring { dato: Dato { dag: idag.dag - 7 }, tomme_paa_rad: 0, trekninger: forste }
    }

    /// Whether another week is asked for.
    pub fn videre(&self, fra: Dato) -> (r: bool)
        ensures
            r == (self.dato.dag >= fra.dag && self.tomme_paa_rad < TOMME_UKER),
            r == uke_videre(self@, fra.dag as int),
    {
        self.dato.dag >= fra.dag && self.tomme_paa_rad < TOMME_UKER
    }

    /// Takes in what a week gave; nothing stands for a week that did not
    /// answer. A week without draws is counted; one with draws ends the count.
    pub fn ta_imot(&mut self, svar: Option<Vec<Trekning>>)
        requires
            dato::FORSTE_DAG + 7 <= old(self).dato.dag,
            old(self).tomme_paa_rad < TOMME_UKER,
        ensures
            final(self).dato.dag == old(self).dato.dag - 7,
            (match svar {
                Some(ny) => if ny@.len() == 0 {
                    final(self).tomme_paa_rad == old(self).tomme_paa_rad + 1
                        && final(self).trekninger@ == old(self).trekninger@
                } else {
                    final(self).tomme_paa_rad == 0 && final(self).trekninger@
                        == old(self).trekninger@ + ny@
                },
                None => final(self).tomme_paa_rad == old(self).tomme_paa_rad + 1
                    && final(self).trekninger@ == old(self).trekninger@,
            }),
            final(self)@ == uke_besvart(old(self)@, ukens_trekninger(svar)),
    {
        let ghost for_ = self@.funnet;
        let ghost nye = ukens_trekninger(svar);
        match svar {
            Some(ny) => {
                if ny.len() == 0 {
                    self.tomme_paa_rad = self.tomme_paa_rad + 1;
                } else {
                    let mut alle: Vec<Trekning> = ny;
                    self.tomme_paa_rad = 0;
                    self.trekninger.append(&mut alle);
                }
            },
            None => {
                self.tomme_paa_rad = self.tomme_paa_rad + 1;
            },
        }
        self.dato = Dato { dag: self.dato.dag - 7 };
        assert(self@.funnet =~= for_ + nye);
    }
}

// ---------------------------------------------------------------------------
// Going back draw by draw
// ---------------------------------------------------------------------------

/// Draws in a row that cannot be read after which the search gives up.
pub const MAKS_FEIL: usize = 10;

/// A walk back through the draw numbers.
pub struct Idvandring {
    pub id: u64,
    pub feil_paa_rad: usize,
    pub ferdig: bool,
    pub trekninger: Vec<Trekning>,
}

pub open spec fn idnokler() -> Seq<Seq<char>> {
    seq!["drawID"@, "drawId"@, "drawNumber"@, "trekningsnummer"@]
}

/// The number of the last draw in a reply; a negative one counts from the top
/// of the range.
pub open spec fn siste_id(v: JsonView) -> Option<int> {
    match tolk::tall_felt(v, idnokler()) {
        Some(n) => if n < 0 {
            Some(n + 0x1_0000_0000_0000_0000)
        } else {
            Some(n)
        },
        None => None,
    }
}

/// The number of the last draw in a reply.
pub fn finn_siste_id(v: &Json) -> (r: Option<u64>)
    ensures
        r is Some == siste_id(v@) is Some,
        r matches Some(n) ==> siste_id(v@) == Some(n as int),
{
    let nokler: Vec<&'static str> = vec!["drawID", "drawId", "drawNumber", "trekningsnummer"];
    assert(tolk::navn_av(nokler@) =~= idnokler());
    match tolk::finn_tall_felt(v, &nokler) {
        Some(n) => if n < 0 {
            Some((n as i128 + 0x1_0000_0000_0000_0000) as u64)
        } else {
            Some(n as u64)
        },
        None => None,
    }
}

/// Where a walk through the numbers stands.
#[verifier::ext_equal]
pub struct IdvandringInnhold {
    pub feil: int,
    pub ferdig: bool,
    pub funnet: Seq<TrekningInnhold>,
}

impl View for Idvandring {
    type V = IdvandringInnhold;

    open spec fn view(&self) -> IdvandringInnhold {
        IdvandringInnhold {
            feil: self.feil_paa_rad as int,
            ferdig: self.ferdig,
            funnet: historikk::innhold(self.trekninger@),
        }
    }
}

/// The walk after one draw more that came or did not.
pub open spec fn id_besvart(s: IdvandringInnhold, svar: Option<TrekningInnhold>, fra: int) -> IdvandringInnhold {
    match svar {
        Some(t) => IdvandringInnhold { feil: 0, ferdig: s.ferdig || t.dag < fra, funnet: s.funnet.push(t) },
        None => IdvandringInnhold { feil: s.feil + 1, ferdig: s.ferdig || s.feil + 1 >= MAKS_FEIL, funnet: s.funnet },
    }
}

/// The walk after a row of draws that came or did not.
pub open spec fn ider_besvart(s: IdvandringInnhold, svar: Seq<Option<TrekningInnhold>>, fra: int) -> IdvandringInnhold
    decreases svar.len(),
{
    if svar.len() == 0 {
        s
    } else {
        id_besvart(ider_besvart(s, svar.drop_last(), fra), svar.last(), fra)
    }
}

/// A walk through draws that all came is over with the first from before the
/// first day, which it still takes with it.
pub proof fn law_gammel_trekning_stanser(
    s: IdvandringInnhold,
    for_: Seq<TrekningInnhold>,
    siste: TrekningInnhold,
    fra: int,
)
    requires
        !s.ferdig,
        forall|i: int| 0 <= i < for_.len() ==> (#[trigger] for_[i]).dag >= fra,
    ensures
        ({
            let t = ider_besvart(s, for_.push(siste).map_values(|x: TrekningInnhold| Some(x)), fra);
            &&& t.funnet == s.funnet + for_.push(siste)
            &&& t.feil == 0
            &&& t.ferdig <==> siste.dag < fra
        }),
    decreases for_.len(),
{
    let f = |x: TrekningInnhold| Some(x);
    let alle = for_.push(siste).map_values(f);
    assert(alle =~= for_.push(siste).map_values(|x: TrekningInnhold| Some(x)));
    assert(alle.drop_last() =~= for_.map_values(f));
    assert(alle.last() == Some(siste));
    if for_.len() > 0 {
        let d = for_.drop_last();
        assert(d.push(for_.last()) =~= for_);
        assert forall|i: int| 0 <= i < d.len() implies (#[trigger] d[i]).dag >= fra by {
            assert(for_[i].dag >= fra);
        }
        assert(for_[for_.len() - 1].dag >= fra);
        law_gammel_trekning_stanser(s, d, for_.last(), fra);
        assert(for_.map_values(f) =~= d.push(for_.last()).map_values(|x: TrekningInnhold| Some(x)));
        assert((s.funnet + for_).push(siste) =~= s.funnet + for_.push(siste));
    } else {
        assert(alle.drop_last() =~= Seq::<Option<TrekningInnhold>>::empty());
        reveal_with_fuel(ider_besvart, 2);
        assert(s.funnet.push(siste) =~= s.funnet + for_.push(siste));
    }
}

/// Draws that do not come are counted from the last that came, and ten of them
/// in a row end the walk; nine do not.
pub proof fn law_ti_uten_svar_stanser(s: IdvandringInnhold, siste: TrekningInnhold, n: nat, fra: int)
    requires
        !s.ferdig,
        siste.dag >= fra,
    ensures
        ({
            let t = ider_besvart(s, seq![Some(siste)] + Seq::new(n, |i: int| None::<TrekningInnhold>), fra);
            &&& t.funnet == s.funnet.push(siste)
            &&& t.feil == n
            &&& t.ferdig <==> n >= 10
        }),
    decreases n,
{
    let alle = seq![Some(siste)] + Seq::new(n, |i: int| None::<TrekningInnhold>);
    if n == 0 {
        assert(alle =~= seq![Some(siste)]);
        assert(alle.drop_last() =~= Seq::<Option<TrekningInnhold>>::empty());
        reveal_with_fuel(ider_besvart, 2);
    } else {
        law_ti_uten_svar_stanser(s, siste, (n - 1) as nat, fra);
        assert(alle.drop_last() =~= seq![Some(siste)] + Seq::new((n - 1) as nat, |i: int| None::<TrekningInnhold>));
    }
}

impl Idvandring {
    /// Begins at the last draw, which may have been readable.
    pub fn ny(siste: u64, forste: Option<Trekning>) -> (r: Idvandring)
        ensures
            r.id == siste,
            r.feil_paa_rad == 0,
            !r.ferdig,
            r.trekninger@ == (match forste {
                Some(t) => seq![t],
                None => Seq::empty(),
            }),
    {
        let mut trekninger: Vec<Trekning> = Vec::new();
        match forste {
            Some(t) => {
                trekninger.push(t);
            },
            None => {},
        }
        assert(trekninger@ =~= (match forste {
            Some(t) => seq![t],
            None => Seq::empty(),
        }));
        Idvandring { id: siste, feil_paa_rad: 0, ferdig: false, trekninger }
    }

    /// The draw to ask for next; none once the walk is over.
    pub fn neste(&mut self) -> (r: Option<u64>)
        ensures
            r is Some == (!old(self).ferdig && old(self).id > 1),
            r matches Some(id) ==> id == old(self).id - 1 && final(self).id == id,
            r is None ==> final(self).id == old(self).id,
            final(self).feil_paa_rad == old(self).feil_paa_rad,
            final(self).ferdig == old(self).ferdig,
            final(self).trekninger@ == old(self).trekninger@,
    {
        if self.ferdig || self.id <= 1 {
            None
        } else {
            self.id = self.id - 1;
            Some(self.id)
        }
    }

    /// Takes in the draw that came, if one did. The walk is over with the first
    /// draw from before `fra`, or with ten in a row that did not come.
    pub fn ta_imot(&mut self, svar: Option<Trekning>, fra: Dato)
        requires
            old(self).feil_paa_rad < MAKS_FEIL,
        ensures
            final(self).id == old(self).id,
            (match svar {
                Some(t) => final(self).feil_paa_rad == 0 && final(self).trekninger@
                    == old(self).trekninger@.push(t) && final(self).ferdig == (old(self).ferdig
                    || t.dato.dag < fra.dag),
                None => final(self).feil_paa_rad == old(self).feil_paa_rad + 1
                    && final(self).trekninger@ == old(self).trekninger@ && final(self).ferdig == (
                old(self).ferdig || old(self).feil_paa_rad + 1 >= MAKS_FEIL),
            }),
            final(self)@ == id_besvart(old(self)@, tolk::trekning_syn(svar), fra.dag as int),
    {
        let ghost for_ = self@.funnet;
        let ghost kom = tolk::trekning_syn(svar);
        match svar {
            Some(t) => {
                self.feil_paa_rad = 0;
                if t.dato.dag < fra.dag {
                    self.ferdig = true;
                }
                self.trekninger.push(t);
            },
            None => {
                self.feil_paa_rad = self.feil_paa_rad + 1;
                if self.feil_paa_rad >= MAKS_FEIL {
                    self.ferdig = true;
                }
            },
        }
        assert(self@.funnet =~= (match kom {
            Some(t) => for_.push(t),
            None => for_,
        }));
    }
}

/// How long to wait, in milliseconds, before a try of the result page: tries
/// count from 0, there are four, and the first does not wait.
pub fn ventetid(forsok: u64) -> (r: Option<u64>)
    ensures
        r == (if forsok < 4 {
            Some((600 * forsok) as u64)
        } else {
            None::<u64>
        }),
{
    if forsok < 4 {
        Some(600 * forsok)
    } else {
        None
    }
}

// ---------------------------------------------------------------------------
// Probing
// ---------------------------------------------------------------------------

/// Runs of equal neighbours count once.
pub open spec fn uten_naboer(l: Seq<Seq<char>>) -> Seq<Seq<char>>
    decreases l.len(),
{
    if l.len() == 0 {
        Seq::empty()
    } else {
        let u = uten_naboer(l.drop_last());
        if u.len() > 0 && u.last() == l.last() {
            u
        } else {
            u.push(l.last())
        }
    }
}

pub fn fjern_naboer(l: Vec<String>) -> (r: Vec<String>)
    ensures
        text::views(r@) == uten_naboer(text::views(l@)),
{
    let ghost v = text::views(l@);
    let mut ut: Vec<String> = Vec::new();
    let mut i: usize = 0;
    assert(v.take(0) =~= Seq::empty());
    assert(text::views(ut@) =~= uten_naboer(v.take(0)));
    while i < l.len()
        invariant
            i <= l@.len(),
            v == text::views(l@),
            text::views(ut@) == uten_naboer(v.take(i as int)),
        decreases l.len() - i,
    {
        assert(v.take(i + 1).drop_last() =~= v.take(i as int));
        assert(v.take(i + 1).last() == l@[i as int]@);
        let ghost before = text::views(ut@);
        let mut lik: bool = false;
        if ut.len() > 0 {
            assert(before.last() == ut@.last()@);
            lik = text::same(ut[ut.len() - 1].as_str(), l[i].as_str());
        }
        if !lik {
            ut.push(copy_text(&l[i]));
            assert(text::views(ut@) =~= before.push(l@[i as int]@));
        }
        i += 1;
    }
    assert(v.take(i as int) =~= v);
    ut
}

/// The addresses that do not depend on the week, for one game: each pattern
/// with the game filled in and no id.
pub open spec fn sonde_maler(spill: Spill) -> Seq<Seq<char>> {
    seq![
        utfylt(ENDEPUNKT_MAL@, spill, None),
        utfylt(ENDEPUNKT_MAL_2@, spill, None),
        text::replaced(SONDE_1@, "{spill}"@, spill.api_navn_spec()),
        text::replaced(SONDE_2@, "{spill}"@, spill.api_navn_spec()),
        text::replaced(SONDE_3@, "{spill}"@, spill.api_navn_spec()),
    ]
}

fn legg_til_maler(ut: &mut Vec<String>, spill: Spill)
    ensures
        text::views(final(ut)@) == text::views(old(ut)@) + sonde_maler(spill),
{
    proof {
        reveal_strlit("{spill}");
    }
    ut.push(trekning_url(ENDEPUNKT_MAL, spill, None));
    ut.push(trekning_url(ENDEPUNKT_MAL_2, spill, None));
    ut.push(text::text_replace(SONDE_1, "{spill}", spill.api_navn()));
    ut.push(text::text_replace(SONDE_2, "{spill}", spill.api_navn()));
    ut.push(text::text_replace(SONDE_3, "{spill}", spill.api_navn()));
    assert(text::views(ut@) =~= text::views(old(ut)@) + sonde_maler(spill));
}

/// The addresses to probe for the shared draws of one name: the day's week on
/// both bases, and the list of draws.
pub open spec fn uke_sonder(navn: Seq<char>, dag: int) -> Seq<Seq<char>> {
    seq![
        dagens_uke_adresse(VEIKKAUS_BASE@, navn, dag),
        dagens_uke_adresse(VEIKKAUS_BASE_2@, navn, dag),
        VEIKKAUS_BASE@ + "/games/"@ + navn + "/draws"@,
    ]
}

/// The addresses to probe for the shared draws of a game, by the first of its
/// names.
pub open spec fn felles_sonder(spill: Spill, dag: int) -> Seq<Seq<char>> {
    if spill.veikkaus_spec().len() == 0 {
        Seq::empty()
    } else {
        uke_sonder(spill.veikkaus_spec()[0], dag)
    }
}

fn legg_til_uker(ut: &mut Vec<String>, navn: &str, idag: Dato)
    requires
        idag.gyldig(),
    ensures
        text::views(final(ut)@) == text::views(old(ut)@) + uke_sonder(navn@, idag.dag as int),
{
    let a: String = veikkaus_uke_url(VEIKKAUS_BASE, navn, idag);
    let b: String = veikkaus_uke_url(VEIKKAUS_BASE_2, navn, idag);
    let mut c: Vec<char> = chars_of(VEIKKAUS_BASE);
    push_text(&mut c, "/games/");
    push_text(&mut c, navn);
    push_text(&mut c, "/draws");
    ut.push(a);
    ut.push(b);
    ut.push(string_of(c.as_slice()));
    assert(text::views(ut@) =~= text::views(old(ut)@) + uke_sonder(navn@, idag.dag as int));
}

/// The addresses that are probed for a game on a day, runs of equal ones once.
pub fn sonde_urler(spill: Spill, idag: Dato) -> (r: Vec<String>)
    requires
        idag.gyldig(),
    ensures
        text::views(r@) == uten_naboer(felles_sonder(spill, idag.dag as int) + sonde_maler(spill)),
{
    let mut ut: Vec<String> = Vec::new();
    let navn: Vec<&'static str> = spill.veikkaus_navn();
    if navn.len() > 0 {
        legg_til_uker(&mut ut, navn[0], idag);
    }
    assert(text::views(ut@) =~= felles_sonder(spill, idag.dag as int));
    legg_til_maler(&mut ut, spill);
    fjern_naboer(ut)
}

proof fn lemma_uten_naboer(l: Seq<Seq<char>>)
    ensures
        l.len() > 0 ==> uten_naboer(l).len() > 0 && uten_naboer(l).last() == l.last(),
    decreases l.len(),
{
    if l.len() > 0 {
        lemma_uten_naboer(l.drop_last());
    }
}

/// An address asked for twice in a row is asked for once: nothing is lost, and
/// no two that are the same stand beside each other.
pub proof fn law_uten_naboer(l: Seq<Seq<char>>)
    ensures
        forall|i: int| 0 <= i < l.len() ==> uten_naboer(l).contains(#[trigger] l[i]),
        forall|i: int| 0 <= i < uten_naboer(l).len() ==> l.contains(#[trigger] uten_naboer(l)[i]),
        forall|i: int, j: int|
            0 <= i && j == i + 1 && j < uten_naboer(l).len() ==> #[trigger] uten_naboer(l)[i] != #[trigger] uten_naboer(
                l,
            )[j],
    decreases l.len(),
{
    if l.len() > 0 {
        let d = l.drop_last();
        let u = uten_naboer(d);
        let v = uten_naboer(l);
        law_uten_naboer(d);
        lemma_uten_naboer(l);
        assert forall|i: int| 0 <= i < l.len() implies v.contains(#[trigger] l[i]) by {
            if i < d.len() {
                assert(u.contains(d[i]));
                let k = choose|k: int| 0 <= k < u.len() && u[k] == d[i];
                assert(v[k] == l[i]);
            } else {
                assert(v[v.len() - 1] == l[i]);
            }
        }
        assert forall|i: int| 0 <= i < v.len() implies l.contains(#[trigger] v[i]) by {
            if i < u.len() {
                assert(d.contains(u[i]));
                let k = choose|k: int| 0 <= k < d.len() && d[k] == u[i];
                assert(l[k] == v[i]);
            } else {
                assert(l[l.len() - 1] == v[i]);
            }
        }
    }
}

}
