//! The history of draws: reading, writing and merging it.
use vstd::prelude::*;

use crate::dato;
use crate::dato::{les_dato, Dato};
use crate::number_text;
use crate::order;
use crate::text;
use crate::text::{chars_of, push_all, push_text, string_of};
use crate::tipping::historikk_lover;

verus! {

/// One draw.
#[derive(Debug, Clone, PartialEq, Eq)]
pub struct Trekning {
    pub dato: Dato,
    pub hovedtall: Vec<u8>,
    /// Viking number, star numbers or Lotto's additional number, as the
    /// source gives them.
    pub ekstra: Vec<u8>,
}

/// What a draw holds.
pub struct TrekningInnhold {
    pub dag: int,
    pub hovedtall: Seq<u8>,
    pub ekstra: Seq<u8>,
}

impl View for Trekning {
    type V = TrekningInnhold;

    open spec fn view(&self) -> TrekningInnhold {
        TrekningInnhold {
            dag: self.dato.dag as int,
            hovedtall: self.hovedtall@,
            ekstra: self.ekstra@,
        }
    }
}

pub open spec fn innhold(ts: Seq<Trekning>) -> Seq<TrekningInnhold> {
    ts.map_values(|t: Trekning| t@)
}

/// Whether the dates of all draws lie within the calendar.
pub open spec fn gyldige(ts: Seq<Trekning>) -> bool {
    forall|i: int| 0 <= i < ts.len() ==> (#[trigger] ts[i]).dato.gyldig()
}

pub open spec fn dager(ts: Seq<TrekningInnhold>) -> Seq<i128> {
    ts.map_values(|t: TrekningInnhold| t.dag as i128)
}

/// The draws in order of date; draws of one date in their first order.
pub open spec fn sortert(ts: Seq<TrekningInnhold>) -> Seq<TrekningInnhold> {
    order::order_of(dager(ts)).map_values(|i: int| ts[i])
}

/// The first of each run of draws with one date.
pub open spec fn uten_gjentak(ts: Seq<TrekningInnhold>) -> Seq<TrekningInnhold>
    decreases ts.len(),
{
    if ts.len() == 0 {
        Seq::empty()
    } else {
        let d = uten_gjentak(ts.drop_last());
        if d.len() > 0 && d.last().dag == ts.last().dag {
            d
        } else {
            d.push(ts.last())
        }
    }
}

/// The draws from the day `fra` on.
pub open spec fn fra_og_med(ts: Seq<TrekningInnhold>, fra: int) -> Seq<TrekningInnhold> {
    ts.filter(|t: TrekningInnhold| t.dag >= fra)
}

/// The draws from the day `fra` on, in order of date, one for each date.
pub open spec fn ryddet(ts: Seq<TrekningInnhold>, fra: int) -> Seq<TrekningInnhold> {
    uten_gjentak(sortert(fra_og_med(ts, fra)))
}

/// A copy of a list of numbers.
pub fn kopi_tall(v: &Vec<u8>) -> (r: Vec<u8>)
    ensures
        r@ == v@,
{
    let mut ut: Vec<u8> = Vec::new();
    let mut i: usize = 0;
    while i < v.len()
        invariant
            i <= v@.len(),
            ut@ == v@.take(i as int),
        decreases v.len() - i,
    {
        ut.push(v[i]);
        i += 1;
        assert(v@.take(i as int) =~= v@.take(i - 1).push(v@[i - 1]));
    }
    assert(v@.take(i as int) =~= v@);
    ut
}

impl Trekning {
    pub fn kopi(&self) -> (r: Trekning)
        ensures
            r@ == self@,
            r.dato == self.dato,
    {
        Trekning {
            dato: self.dato,
            hovedtall: kopi_tall(&self.hovedtall),
            ekstra: kopi_tall(&self.ekstra),
        }
    }
}

/// Sorts by date, draws of one date in their first order.
pub fn sorter(ts: &Vec<Trekning>) -> (r: Vec<Trekning>)
    ensures
        innhold(r@) == sortert(innhold(ts@)),
        gyldige(ts@) ==> gyldige(r@),
{
    let mut keys: Vec<i128> = Vec::new();
    let mut i: usize = 0;
    while i < ts.len()
        invariant
            i <= ts@.len(),
            keys@ == dager(innhold(ts@)).take(i as int),
        decreases ts.len() - i,
    {
        keys.push(ts[i].dato.dag as i128);
        i += 1;
        assert(keys@ =~= dager(innhold(ts@)).take(i as int));
    }
    assert(keys@ =~= dager(innhold(ts@)));
    let o: Vec<usize> = order::stable_order(&keys);
    let mut ut: Vec<Trekning> = Vec::new();
    let mut k: usize = 0;
    while k < o.len()
        invariant
            k <= o@.len(),
            keys@.len() == ts@.len(),
            forall|j: int| 0 <= j < o@.len() ==> (#[trigger] o@[j]) < keys@.len(),
            ut@.len() == k,
            forall|j: int| 0 <= j < k ==> (#[trigger] ut@[j])@ == ts@[o@[j] as int]@,
            gyldige(ts@) ==> gyldige(ut@),
        decreases o.len() - k,
    {
        ut.push(ts[o[k]].kopi());
        k += 1;
    }
    assert(innhold(ut@) =~= sortert(innhold(ts@))) by {
        let p = order::positions(o@);
        assert(p == order::order_of(dager(innhold(ts@))));
        assert forall|j: int| 0 <= j < ut@.len() implies innhold(ut@)[j] == sortert(innhold(ts@))[j] by {
            assert(p[j] == o@[j] as int);
            assert(ut@[j]@ == ts@[o@[j] as int]@);
        }
    }
    ut
}

/// Keeps the first of each run of draws with one date.
pub fn fjern_gjentak(ts: &Vec<Trekning>) -> (r: Vec<Trekning>)
    ensures
        innhold(r@) == uten_gjentak(innhold(ts@)),
        gyldige(ts@) ==> gyldige(r@),
{
    let mut ut: Vec<Trekning> = Vec::new();
    let mut i: usize = 0;
    assert(innhold(ts@).take(0) =~= Seq::empty());
    assert(innhold(ut@) =~= uten_gjentak(innhold(ts@).take(0)));
    while i < ts.len()
        invariant
            i <= ts@.len(),
            innhold(ut@) == uten_gjentak(innhold(ts@).take(i as int)),
            gyldige(ts@) ==> gyldige(ut@),
        decreases ts.len() - i,
    {
        let ghost s = innhold(ts@).take(i + 1);
        assert(s.drop_last() =~= innhold(ts@).take(i as int));
        assert(s.last() == ts@[i as int]@);
        let ghost before = innhold(ut@);
        let mut gjentak: bool = false;
        if ut.len() > 0 {
            assert(before.last() == ut@.last()@);
            gjentak = ut[ut.len() - 1].dato.dag == ts[i].dato.dag;
        }
        if !gjentak {
            ut.push(ts[i].kopi());
            assert(innhold(ut@) =~= before.push(ts@[i as int]@));
        }
        i += 1;
    }
    assert(innhold(ts@).take(i as int) =~= innhold(ts@));
    ut
}

/// Leaves out what lies before `fra`, sorts by date and keeps one draw for
/// each date.
pub fn rydd(ts: &Vec<Trekning>, fra: Dato) -> (r: Vec<Trekning>)
    ensures
        innhold(r@) == ryddet(innhold(ts@), fra.dag as int),
        gyldige(ts@) ==> gyldige(r@),
{
    let ghost p = |t: TrekningInnhold| t.dag >= fra.dag;
    let mut ut: Vec<Trekning> = Vec::new();
    let mut i: usize = 0;
    proof {
        reveal(Seq::filter);
    }
    while i < ts.len()
        invariant
            i <= ts@.len(),
            p == (|t: TrekningInnhold| t.dag >= fra.dag),
            innhold(ut@) == innhold(ts@).take(i as int).filter(p),
            gyldige(ts@) ==> gyldige(ut@),
        decreases ts.len() - i,
    {
        let ghost s = innhold(ts@).take(i + 1);
        proof {
            reveal(Seq::filter);
            assert(s.drop_last() =~= innhold(ts@).take(i as int));
            assert(s.last() == ts@[i as int]@);
        }
        let ghost before = innhold(ut@);
        if ts[i].dato.dag >= fra.dag {
            ut.push(ts[i].kopi());
            assert(innhold(ut@) =~= before.push(ts@[i as int]@));
        }
        i += 1;
    }
    assert(innhold(ts@).take(i as int) =~= innhold(ts@));
    assert(innhold(ut@) =~= fra_og_med(innhold(ts@), fra.dag as int));
    let s: Vec<Trekning> = sorter(&ut);
    fjern_gjentak(&s)
}

// ---------------------------------------------------------------------------
// The file: `dato;hovedtall;ekstra`, numbers with commas between them
// ---------------------------------------------------------------------------

pub open spec fn tall_tekster(tall: Seq<u8>) -> Seq<Seq<char>> {
    tall.map_values(|n: u8| number_text::decimal(n as nat))
}

/// One line of the file.
pub open spec fn csv_linje(t: TrekningInnhold) -> Seq<char> {
    dato::dato_skrevet(t.dag) + seq![';'] + text::joined(tall_tekster(t.hovedtall), seq![',']) + seq![
        ';',
    ] + text::joined(tall_tekster(t.ekstra), seq![','])
}

pub open spec fn csv_linjer(ts: Seq<TrekningInnhold>) -> Seq<char>
    decreases ts.len(),
{
    if ts.len() == 0 {
        Seq::empty()
    } else {
        csv_linje(ts[0]) + seq!['\n'] + csv_linjer(ts.skip(1))
    }
}

/// The whole file.
pub open spec fn csv_tekst(ts: Seq<TrekningInnhold>) -> Seq<char> {
    "dato;hovedtall;ekstra"@ + seq!['\n'] + csv_linjer(ts)
}

/// The numbers among the parts: what is a number from 0 to 255 once the white
/// space round it is taken away.
pub open spec fn tall_blant(deler: Seq<Seq<char>>) -> Seq<u8>
    decreases deler.len(),
{
    if deler.len() == 0 {
        Seq::empty()
    } else {
        let foran = tall_blant(deler.drop_last());
        match number_text::at_most(number_text::nat_of(text::trimmed(deler.last())), 255) {
            Some(n) => foran.push(n as u8),
            None => foran,
        }
    }
}

/// The numbers of a field.
pub open spec fn tall_i(felt: Seq<char>) -> Seq<u8> {
    tall_blant(text::split_on(felt, ','))
}

/// The draw of a line; none for a line that is empty, holds no second field, no
/// date or no number.
pub open spec fn linje_lest(linje: Seq<char>) -> Option<TrekningInnhold> {
    let deler = text::split_on(text::trimmed(linje), ';');
    if deler.len() < 2 {
        None
    } else {
        match dato::dato_lest(deler[0], "%Y-%m-%d"@) {
            Some(dag) => if tall_i(deler[1]).len() == 0 {
                None
            } else {
                Some(
                    TrekningInnhold {
                        dag,
                        hovedtall: tall_i(deler[1]),
                        ekstra: if deler.len() > 2 {
                            tall_i(deler[2])
                        } else {
                            Seq::empty()
                        },
                    },
                )
            },
            None => None,
        }
    }
}

/// Whether a line is a heading or a comment.
pub open spec fn hode(linje: Seq<char>) -> bool {
    text::starts(linje, "dato"@) || text::starts(linje, seq!['#'])
}

/// The lines behind the headings and comments at the start.
pub open spec fn etter_hode(linjer: Seq<Seq<char>>) -> Seq<Seq<char>>
    decreases linjer.len(),
{
    if linjer.len() > 0 && hode(linjer[0]) {
        etter_hode(linjer.skip(1))
    } else {
        linjer
    }
}

/// The draws of the lines, in their order.
pub open spec fn lest(linjer: Seq<Seq<char>>) -> Seq<TrekningInnhold>
    decreases linjer.len(),
{
    if linjer.len() == 0 {
        Seq::empty()
    } else {
        let foran = lest(linjer.drop_last());
        match linje_lest(linjer.last()) {
            Some(t) => foran.push(t),
            None => foran,
        }
    }
}

/// The draws of a file, in order of date.
pub open spec fn csv_lest(innhold: Seq<char>) -> Seq<TrekningInnhold> {
    sortert(lest(etter_hode(text::lines_of(innhold))))
}

fn skriv_tall(tall: &Vec<u8>) -> (r: Vec<char>)
    ensures
        r@ == text::joined(tall_tekster(tall@), seq![',']),
{
    let mut deler: Vec<Vec<char>> = Vec::new();
    let mut i: usize = 0;
    while i < tall.len()
        invariant
            i <= tall@.len(),
            text::seqs(deler@) == tall_tekster(tall@).take(i as int),
        decreases tall.len() - i,
    {
        let ghost before = text::seqs(deler@);
        deler.push(number_text::write_decimal(tall[i] as u128));
        i += 1;
        assert(text::seqs(deler@) =~= before.push(number_text::decimal(tall@[i - 1] as nat)));
        assert(text::seqs(deler@) =~= tall_tekster(tall@).take(i as int));
    }
    assert(text::seqs(deler@) =~= tall_tekster(tall@));
    let mut komma: Vec<char> = Vec::new();
    komma.push(',');
    assert(komma@ =~= seq![',']);
    text::join(&deler, komma.as_slice())
}

proof fn lemma_linjer_push(ts: Seq<TrekningInnhold>, t: TrekningInnhold)
    ensures
        csv_linjer(ts.push(t)) == csv_linjer(ts) + (csv_linje(t) + seq!['\n']),
    decreases ts.len(),
{
    let u = ts.push(t);
    if ts.len() == 0 {
        assert(u.skip(1) =~= Seq::empty());
        assert(csv_linjer(u.skip(1)) =~= Seq::<char>::empty());
        assert(csv_linjer(u) =~= csv_linje(t) + seq!['\n']);
        assert(csv_linjer(ts) + (csv_linje(t) + seq!['\n']) =~= csv_linje(t) + seq!['\n']);
    } else {
        lemma_linjer_push(ts.skip(1), t);
        assert(u.skip(1) =~= ts.skip(1).push(t));
        assert(csv_linjer(u) =~= csv_linjer(ts) + (csv_linje(t) + seq!['\n']));
    }
}

/// Whether all draws have main numbers.
pub open spec fn vanlige(ts: Seq<TrekningInnhold>) -> bool {
    forall|i: int| 0 <= i < ts.len() ==> (#[trigger] ts[i]).hovedtall.len() > 0
}

/// The history as a file: `dato;hovedtall;ekstra`. Draws in order of date that
/// have main numbers are read back from it as they were.
pub fn skriv_csv(trekninger: &Vec<Trekning>) -> (r: String)
    requires
        gyldige(trekninger@),
    ensures
        r@ == csv_tekst(innhold(trekninger@)),
        vanlige(innhold(trekninger@)) && historikk_lover::i_orden(innhold(trekninger@)) ==> csv_lest(r@)
            == innhold(trekninger@),
{
    let mut ut: Vec<char> = chars_of("dato;hovedtall;ekstra");
    ut.push('\n');
    let ghost start = ut@;
    assert(start =~= "dato;hovedtall;ekstra"@ + seq!['\n']);
    let mut i: usize = 0;
    let ghost ts = innhold(trekninger@);
    assert(ts.take(0) =~= Seq::empty());
    assert(start + csv_linjer(ts.take(0)) =~= start);
    while i < trekninger.len()
        invariant
            i <= trekninger@.len(),
            gyldige(trekninger@),
            ts == innhold(trekninger@),
            ut@ == start + csv_linjer(ts.take(i as int)),
            vanlige(ts) ==> forall|j: int| 0 <= j < i ==> historikk_lover::skrivbar(#[trigger] ts[j]),
        decreases trekninger.len() - i,
    {
        let t: &Trekning = &trekninger[i];
        let ghost before = ut@;
        assert(ts[i as int] == t@);
        let d: String = t.dato.som_tekst();
        push_text(&mut ut, d.as_str());
        ut.push(';');
        let hoved: Vec<char> = skriv_tall(&t.hovedtall);
        push_all(&mut ut, hoved.as_slice());
        ut.push(';');
        let ekstra: Vec<char> = skriv_tall(&t.ekstra);
        push_all(&mut ut, ekstra.as_slice());
        ut.push('\n');
        proof {
            assert(ut@ =~= before + (csv_linje(t@) + seq!['\n']));
            lemma_linjer_push(ts.take(i as int), t@);
            assert(ts.take(i + 1) =~= ts.take(i as int).push(t@));
            assert(ut@ =~= start + csv_linjer(ts.take(i + 1)));
        }
        i += 1;
    }
    assert(ts.take(i as int) =~= ts);
    proof {
        if vanlige(ts) && historikk_lover::i_orden(ts) {
            historikk_lover::law_csv_rundtur(ts);
        }
    }
    string_of(ut.as_slice())
}

/// The numbers of a field, separated by commas; what is no number is left out.
pub fn tall_liste(felt: &[char]) -> (r: Vec<u8>)
    ensures
        r@ == tall_i(felt@),
{
    let deler: Vec<Vec<char>> = text::split(felt, ',');
    let ghost d = text::seqs(deler@);
    let mut ut: Vec<u8> = Vec::new();
    let mut i: usize = 0;
    assert(d.take(0) =~= Seq::empty());
    while i < deler.len()
        invariant
            i <= deler@.len(),
            d == text::seqs(deler@),
            ut@ == tall_blant(d.take(i as int)),
        decreases deler.len() - i,
    {
        assert(d.take(i + 1).drop_last() =~= d.take(i as int));
        assert(d.take(i + 1).last() == deler@[i as int]@);
        let del: Vec<char> = text::trim(deler[i].as_slice());
        match number_text::read_u8(del.as_slice()) {
            Some(n) => {
                ut.push(n);
            },
            None => {},
        }
        i += 1;
    }
    assert(d.take(i as int) =~= d);
    ut
}

fn les_linje(linje: &[char]) -> (r: Option<Trekning>)
    ensures
        (match r {
            Some(t) => linje_lest(linje@) == Some(t@) && t.dato.gyldig(),
            None => linje_lest(linje@) is None,
        }),
{
    let trimmet: Vec<char> = text::trim(linje);
    let deler: Vec<Vec<char>> = text::split(trimmet.as_slice(), ';');
    let ghost d = text::split_on(text::trimmed(linje@), ';');
    assert(text::seqs(deler@) == d);
    if deler.len() < 2 {
        return None;
    }
    assert(d[0] == deler@[0]@ && d[1] == deler@[1]@);
    let dato_tekst: String = string_of(deler[0].as_slice());
    match les_dato(dato_tekst.as_str(), "%Y-%m-%d") {
        None => None,
        Some(dato) => {
            let hovedtall: Vec<u8> = tall_liste(deler[1].as_slice());
            let ekstra: Vec<u8> = if deler.len() > 2 {
                assert(d[2] == deler@[2]@);
                tall_liste(deler[2].as_slice())
            } else {
                Vec::new()
            };
            if hovedtall.len() == 0 {
                None
            } else {
                Some(Trekning { dato, hovedtall, ekstra })
            }
        },
    }
}

/// Where the lines behind the head begin.
fn hodets_slutt(linjer: &Vec<Vec<char>>) -> (r: usize)
    ensures
        r <= linjer@.len(),
        etter_hode(text::seqs(linjer@)) == text::seqs(linjer@).skip(r as int),
{
    let ghost l = text::seqs(linjer@);
    let mut fra: usize = 0;
    let dato_ord: Vec<char> = chars_of("dato");
    let mut skigard: Vec<char> = Vec::new();
    skigard.push('#');
    assert(skigard@ =~= seq!['#']);
    assert(l.skip(0) =~= l);
    while fra < linjer.len() && (text::starts_with(linjer[fra].as_slice(), dato_ord.as_slice())
        || text::starts_with(linjer[fra].as_slice(), skigard.as_slice()))
        invariant
            fra <= linjer@.len(),
            l == text::seqs(linjer@),
            dato_ord@ == "dato"@,
            skigard@ == seq!['#'],
            etter_hode(l) == etter_hode(l.skip(fra as int)),
        decreases linjer.len() - fra,
    {
        assert(l.skip(fra as int)[0] == linjer@[fra as int]@);
        assert(l.skip(fra as int).skip(1) =~= l.skip(fra + 1));
        fra += 1;
    }
    proof {
        if fra < linjer@.len() {
            assert(l.skip(fra as int)[0] == linjer@[fra as int]@);
        }
    }
    fra
}

/// How many of the lines are passed over: those that are neither blank nor a
/// draw.
pub open spec fn hoppet(linjer: Seq<Seq<char>>) -> nat
    decreases linjer.len(),
{
    if linjer.len() == 0 {
        0
    } else {
        hoppet(linjer.drop_last()) + (if text::trimmed(linjer.last()).len() > 0 && linje_lest(linjer.last()) is None {
            1nat
        } else {
            0
        })
    }
}

/// How many lines of a file are passed over when it is read.
pub fn tell_hoppet(fil: &str) -> (r: usize)
    ensures
        r == hoppet(etter_hode(text::lines_of(fil@))),
{
    let tegn: Vec<char> = chars_of(fil);
    let linjer: Vec<Vec<char>> = text::lines(tegn.as_slice());
    let fra: usize = hodets_slutt(&linjer);
    let ghost l = text::seqs(linjer@);
    let ghost rest = l.skip(fra as int);
    let mut n: usize = 0;
    let mut i: usize = fra;
    assert(rest.take(0) =~= Seq::empty());
    while i < linjer.len()
        invariant
            fra <= i <= linjer@.len(),
            l == text::seqs(linjer@),
            rest == l.skip(fra as int),
            n == hoppet(rest.take(i - fra)),
            n <= i - fra,
        decreases linjer.len() - i,
    {
        let ghost k = i - fra;
        assert(rest.take(k + 1).drop_last() =~= rest.take(k));
        assert(rest.take(k + 1).last() == linjer@[i as int]@);
        let trimmet: Vec<char> = text::trim(linjer[i].as_slice());
        if trimmet.len() > 0 && les_linje(linjer[i].as_slice()).is_none() {
            n += 1;
        }
        i += 1;
        assert(rest.take(i - fra) == rest.take(k + 1));
    }
    assert(rest.take(i - fra) =~= rest);
    n
}

/// The history in a file; lines that cannot be read are passed over.
pub fn les_csv(fil: &str) -> (r: Vec<Trekning>)
    ensures
        innhold(r@) == csv_lest(fil@),
        gyldige(r@),
{
    let tegn: Vec<char> = chars_of(fil);
    let linjer: Vec<Vec<char>> = text::lines(tegn.as_slice());
    let ghost l = text::seqs(linjer@);
    let fra: usize = hodets_slutt(&linjer);
    let ghost rest = l.skip(fra as int);
    let mut ut: Vec<Trekning> = Vec::new();
    let mut i: usize = fra;
    assert(rest.take(0) =~= Seq::empty());
    assert(innhold(ut@) =~= lest(rest.take(0)));
    while i < linjer.len()
        invariant
            fra <= i <= linjer@.len(),
            l == text::seqs(linjer@),
            rest == l.skip(fra as int),
            innhold(ut@) == lest(rest.take(i - fra)),
            gyldige(ut@),
        decreases linjer.len() - i,
    {
        let ghost before = innhold(ut@);
        let ghost k = i - fra;
        assert(rest.take(k + 1).drop_last() =~= rest.take(k));
        assert(rest.take(k + 1).last() == linjer@[i as int]@);
        match les_linje(linjer[i].as_slice()) {
            Some(t) => {
                let ghost tv = t@;
                ut.push(t);
                assert(innhold(ut@) =~= before.push(tv));
            },
            None => {},
        }
        i += 1;
        assert(rest.take(i - fra) == rest.take(k + 1));
    }
    assert(rest.take(i - fra) =~= rest);
    sorter(&ut)
}

/// What merging gives: old draws and new in order of date, one for each date,
/// the old one where both have it.
pub open spec fn flettet(gamle: Seq<TrekningInnhold>, nye: Seq<TrekningInnhold>) -> Seq<TrekningInnhold> {
    uten_gjentak(sortert(gamle + nye))
}

/// Merges old draws with new.
pub fn flett(gamle: &Vec<Trekning>, nye: &Vec<Trekning>) -> (r: Vec<Trekning>)
    ensures
        innhold(r@) == flettet(innhold(gamle@), innhold(nye@)),
        gyldige(gamle@) && gyldige(nye@) ==> gyldige(r@),
{
    let mut alle: Vec<Trekning> = Vec::new();
    let mut i: usize = 0;
    while i < gamle.len()
        invariant
            i <= gamle@.len(),
            innhold(alle@) == innhold(gamle@).take(i as int),
            gyldige(gamle@) ==> gyldige(alle@),
        decreases gamle.len() - i,
    {
        let ghost before = innhold(alle@);
        alle.push(gamle[i].kopi());
        i += 1;
        assert(innhold(alle@) =~= before.push(gamle@[i - 1]@));
        assert(innhold(alle@) =~= innhold(gamle@).take(i as int));
    }
    let mut k: usize = 0;
    assert(innhold(alle@) =~= innhold(gamle@) + innhold(nye@).take(0));
    while k < nye.len()
        invariant
            k <= nye@.len(),
            innhold(alle@) == innhold(gamle@) + innhold(nye@).take(k as int),
            gyldige(gamle@) && gyldige(nye@) ==> gyldige(alle@),
        decreases nye.len() - k,
    {
        let ghost before = innhold(alle@);
        alle.push(nye[k].kopi());
        k += 1;
        assert(innhold(alle@) =~= before.push(nye@[k - 1]@));
        assert(innhold(alle@) =~= innhold(gamle@) + innhold(nye@).take(k as int));
    }
    assert(innhold(alle@) =~= innhold(gamle@) + innhold(nye@));
    let s: Vec<Trekning> = sorter(&alle);
    fjern_gjentak(&s)
}

pub open spec fn fil_tekst(fil: Option<&str>) -> Option<Seq<char>> {
    match fil {
        Some(f) => Some(f@),
        None => None,
    }
}

/// Merges new draws into a file, which may not be there yet: the new file, and
/// the number of draws in it. The file that comes out holds the merged draws,
/// and merging the same draws into it once more changes nothing.
pub fn oppdater_csv(fil: Option<&str>, nye: &Vec<Trekning>) -> (r: (String, usize))
    requires
        gyldige(nye@),
    ensures
        r.0@ == csv_tekst(oppdatert(fil_tekst(fil), innhold(nye@))),
        r.1 == oppdatert(fil_tekst(fil), innhold(nye@)).len(),
        historikk_lover::stigende(oppdatert(fil_tekst(fil), innhold(nye@))),
        forall|i: int|
            0 <= i < oppdatert(fil_tekst(fil), innhold(nye@)).len() ==> historikk_lover::forste_av(
                fil_lest(fil_tekst(fil)) + innhold(nye@),
                (#[trigger] oppdatert(fil_tekst(fil), innhold(nye@))[i]).dag,
            ) == Some(oppdatert(fil_tekst(fil), innhold(nye@))[i]),
        forall|j: int|
            0 <= j < (fil_lest(fil_tekst(fil)) + innhold(nye@)).len() ==> historikk_lover::har_dag(
                oppdatert(fil_tekst(fil), innhold(nye@)),
                (#[trigger] (fil_lest(fil_tekst(fil)) + innhold(nye@))[j]).dag,
            ),
        vanlige(innhold(nye@)) ==> csv_lest(r.0@) == oppdatert(fil_tekst(fil), innhold(nye@)) && oppdatert(
            Some(r.0@),
            innhold(nye@),
        ) == oppdatert(fil_tekst(fil), innhold(nye@)),
{
    let gamle: Vec<Trekning> = match fil {
        Some(f) => les_csv(f),
        None => Vec::new(),
    };
    assert(fil is None ==> innhold(gamle@) =~= Seq::empty());
    let alle: Vec<Trekning> = flett(&gamle, nye);
    proof {
        let g = innhold(gamle@);
        let n = innhold(nye@);
        assert(historikk_lover::datoer(g));
        assert(historikk_lover::datoer(n));
        assert(historikk_lover::datoer(g + n));
        historikk_lover::law_en_for_hver_dato(g + n);
        historikk_lover::law_flettet_igjen(g, n);
        assert(historikk_lover::i_orden(innhold(alle@)));
        if vanlige(n) {
            historikk_lover::lemma_fil_vanlig(fil_tekst(fil));
            historikk_lover::lemma_flettet_vanlig(g, n);
        }
    }
    let tekst: String = skriv_csv(&alle);
    (tekst, alle.len())
}

/// The draws of a file; none where there is no file.
pub open spec fn fil_lest(fil: Option<Seq<char>>) -> Seq<TrekningInnhold> {
    match fil {
        Some(f) => csv_lest(f),
        None => Seq::empty(),
    }
}

/// The draws of a file after new ones were merged into it.
pub open spec fn oppdatert(fil: Option<Seq<char>>, nye: Seq<TrekningInnhold>) -> Seq<TrekningInnhold> {
    flettet(fil_lest(fil), nye)
}

}
