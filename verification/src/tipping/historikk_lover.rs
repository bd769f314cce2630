//! Laws of the draw history: what is written can be read back, and merging
//! keeps one draw for each date.
use vstd::prelude::*;

use crate::dato;
use crate::number_text;
use crate::order;
use crate::text;
use crate::tipping::historikk;
use crate::tipping::historikk::TrekningInnhold;

verus! {

/// A digit, a comma or a sign.
spec fn talltegn(c: char) -> bool {
    number_text::is_digit(c) || c == ',' || c == '-' || c == '+'
}

spec fn bare_talltegn(s: Seq<char>) -> bool {
    forall|i: int| 0 <= i < s.len() ==> talltegn(#[trigger] s[i])
}

/// Whether a draw's date is written as a date and read back from that, and the
/// draw has main numbers.
pub open spec fn skrivbar(t: TrekningInnhold) -> bool {
    &&& dato::er_iso_tekst(dato::dato_skrevet(t.dag), t.dag)
    &&& dato::dato_lest(dato::dato_skrevet(t.dag), "%Y-%m-%d"@) == Some(t.dag)
    &&& t.hovedtall.len() > 0
}

proof fn lemma_dato_tegn(s: Seq<char>, dag: int)
    requires
        dato::er_iso_tekst(s, dag),
    ensures
        bare_talltegn(s),
        s.len() > 0,
{
    let (y, m, d) = choose|y: int, m: int, d: int|
        dato::finnes(y, m, d) && dato::dagnummer(y, m, d) == dag && s == #[trigger] dato::iso_tekst(y, m, d);
    let a = dato::aarstekst(y);
    let b = number_text::padded(m as nat, 2);
    let c = number_text::padded(d as nat, 2);
    let stort = number_text::padded(y as nat, 4);
    let lite = number_text::padded((-y) as nat, 4);
    lemma_fylt(y as nat, 4);
    lemma_fylt((-y) as nat, 4);
    lemma_fylt(m as nat, 2);
    lemma_fylt(d as nat, 2);
    assert forall|i: int| 0 <= i < a.len() implies talltegn(#[trigger] a[i]) by {
        if y < 0 {
            if i > 0 {
                assert(a[i] == lite[i - 1]);
            }
        } else if y > 9999 {
            if i > 0 {
                assert(a[i] == stort[i - 1]);
            }
        } else {
            assert(a[i] == stort[i]);
        }
    }
    assert forall|i: int| 0 <= i < s.len() implies talltegn(#[trigger] s[i]) by {
        if i < a.len() {
            assert(s[i] == a[i]);
        } else if i == a.len() {
        } else if i < a.len() + 1 + b.len() {
            assert(s[i] == b[i - a.len() - 1]);
        } else if i == a.len() + 1 + b.len() {
        } else {
            assert(s[i] == c[i - a.len() - 1 - b.len() - 1]);
        }
    }
}

proof fn lemma_fylt(n: nat, bredde: nat)
    ensures
        number_text::all_digits(number_text::padded(n, bredde)),
        number_text::padded(n, bredde).len() > 0,
{
    number_text::lemma_decimal(n);
    let z = number_text::zeros((bredde - number_text::decimal(n).len()) as int);
    let p = number_text::padded(n, bredde);
    assert forall|i: int| 0 <= i < p.len() implies number_text::is_digit(#[trigger] p[i]) by {
        if i < z.len() {
            assert(p[i] == z[i]);
        } else {
            assert(p[i] == number_text::decimal(n)[i - z.len()]);
        }
    }
}

proof fn lemma_joined_tegn(tall: Seq<u8>)
    ensures
        bare_talltegn(text::joined(historikk::tall_tekster(tall), seq![','])),
    decreases tall.len(),
{
    let p = historikk::tall_tekster(tall);
    if tall.len() == 0 {
    } else if tall.len() == 1 {
        number_text::lemma_decimal(tall[0] as nat);
        assert(text::joined(p, seq![',']) == p[0]);
        assert(p[0] == number_text::decimal(tall[0] as nat));
    } else {
        lemma_joined_tegn(tall.drop_last());
        number_text::lemma_decimal(tall.last() as nat);
        assert(p.drop_last() =~= historikk::tall_tekster(tall.drop_last()));
        let a = text::joined(p.drop_last(), seq![',']);
        let s = text::joined(p, seq![',']);
        assert(p.last() == number_text::decimal(tall.last() as nat));
        assert(s == a + seq![','] + p.last());
        assert forall|i: int| 0 <= i < s.len() implies talltegn(#[trigger] s[i]) by {
            if i < a.len() {
                assert(s[i] == a[i]);
            } else if i == a.len() {
            } else {
                assert(s[i] == p.last()[i - a.len() - 1]);
            }
        }
    }
}

proof fn lemma_tall_blant(tall: Seq<u8>)
    ensures
        historikk::tall_blant(historikk::tall_tekster(tall)) == tall,
    decreases tall.len(),
{
    let p = historikk::tall_tekster(tall);
    if tall.len() == 0 {
        assert(historikk::tall_blant(p) =~= tall);
    } else {
        lemma_tall_blant(tall.drop_last());
        assert(p.drop_last() =~= historikk::tall_tekster(tall.drop_last()));
        let d = number_text::decimal(tall.last() as nat);
        assert(p.last() == d);
        number_text::lemma_decimal(tall.last() as nat);
        number_text::law_decimal_read_back(tall.last() as nat);
        assert(number_text::is_digit(d[0]));
        assert(number_text::is_digit(d[d.len() - 1]));
        text::lemma_trim_none(d);
        assert(historikk::tall_blant(p) =~= tall);
    }
}

proof fn lemma_tall_i(tall: Seq<u8>)
    ensures
        historikk::tall_i(text::joined(historikk::tall_tekster(tall), seq![','])) == tall,
{
    let p = historikk::tall_tekster(tall);
    if tall.len() == 0 {
        let e = Seq::<char>::empty();
        assert(text::joined(p, seq![',']) =~= e);
        text::lemma_split_none(e, ',');
        let deler = seq![e];
        text::lemma_trim_none(e);
        assert(deler.drop_last() =~= Seq::empty());
        assert(historikk::tall_blant(deler.drop_last()) =~= Seq::<u8>::empty());
        assert(number_text::nat_of(e) is None);
        assert(historikk::tall_blant(deler) =~= tall);
    } else {
        assert forall|i: int| 0 <= i < p.len() implies !(#[trigger] p[i]).contains(',') by {
            number_text::lemma_decimal(tall[i] as nat);
            assert(p[i] == number_text::decimal(tall[i] as nat));
            assert forall|j: int| 0 <= j < p[i].len() implies p[i][j] != ',' by {
                assert(number_text::is_digit(p[i][j]));
            }
        }
        text::law_split_join(p, ',');
        lemma_tall_blant(tall);
    }
}

proof fn lemma_uten(s: Seq<char>, c: char)
    requires
        bare_talltegn(s),
        !talltegn(c),
    ensures
        !s.contains(c),
{
    assert forall|i: int| 0 <= i < s.len() implies s[i] != c by {
        assert(talltegn(s[i]));
    }
}

/// A line that was written for a draw is read as that draw.
proof fn lemma_linje(t: TrekningInnhold)
    requires
        skrivbar(t),
    ensures
        historikk::linje_lest(historikk::csv_linje(t)) == Some(t),
        !historikk::csv_linje(t).contains('\n'),
        text::without_cr(historikk::csv_linje(t)) == historikk::csv_linje(t),
        !historikk::hode(historikk::csv_linje(t)),
{
    let d = dato::dato_skrevet(t.dag);
    let h = text::joined(historikk::tall_tekster(t.hovedtall), seq![',']);
    let e = text::joined(historikk::tall_tekster(t.ekstra), seq![',']);
    let s = historikk::csv_linje(t);
    lemma_dato_tegn(d, t.dag);
    lemma_joined_tegn(t.hovedtall);
    lemma_joined_tegn(t.ekstra);
    assert(s[0] == d[0]);
    assert forall|i: int| 0 <= i < s.len() implies talltegn(#[trigger] s[i]) || s[i] == ';' by {
        if i < d.len() {
            assert(s[i] == d[i]);
        } else if i == d.len() {
        } else if i < d.len() + 1 + h.len() {
            assert(s[i] == h[i - d.len() - 1]);
        } else if i == d.len() + 1 + h.len() {
        } else {
            assert(s[i] == e[i - d.len() - 1 - h.len() - 1]);
        }
    }
    assert(talltegn(s[s.len() - 1]) || s[s.len() - 1] == ';');
    text::lemma_trim_none(s);
    lemma_uten(d, ';');
    lemma_uten(h, ';');
    lemma_uten(e, ';');
    text::law_split_concat(d + seq![';'] + h, ';', e);
    text::law_split_concat(d, ';', h);
    text::lemma_split_none(d, ';');
    text::lemma_split_none(h, ';');
    text::lemma_split_none(e, ';');
    assert(text::split_on(s, ';') =~= seq![d, h, e]);
    lemma_tall_i(t.hovedtall);
    lemma_tall_i(t.ekstra);
    reveal_strlit("dato");
    assert("dato"@[0] == 'd');
    if text::starts(s, "dato"@) {
        assert(s.subrange(0, 4)[0] == s[0]);
    }
    if text::starts(s, seq!['#']) {
        assert(s.subrange(0, 1)[0] == s[0]);
    }
}

proof fn lemma_linjer(ts: Seq<TrekningInnhold>)
    requires
        forall|i: int| 0 <= i < ts.len() ==> skrivbar(#[trigger] ts[i]),
    ensures
        text::lines_of(historikk::csv_linjer(ts)) == ts.map_values(
            |t: TrekningInnhold| historikk::csv_linje(t),
        ),
    decreases ts.len(),
{
    let m = ts.map_values(|t: TrekningInnhold| historikk::csv_linje(t));
    if ts.len() == 0 {
        assert(text::lines_of(historikk::csv_linjer(ts)) =~= m);
    } else {
        let r = ts.skip(1);
        assert forall|i: int| 0 <= i < r.len() implies skrivbar(#[trigger] r[i]) by {
            assert(r[i] == ts[i + 1]);
        }
        lemma_linjer(r);
        assert(skrivbar(ts[0]));
        lemma_linje(ts[0]);
        text::law_lines_concat(historikk::csv_linje(ts[0]), historikk::csv_linjer(r));
        assert(text::lines_of(historikk::csv_linjer(ts)) =~= m);
    }
}

proof fn lemma_lest(ts: Seq<TrekningInnhold>)
    requires
        forall|i: int| 0 <= i < ts.len() ==> skrivbar(#[trigger] ts[i]),
    ensures
        historikk::lest(ts.map_values(|t: TrekningInnhold| historikk::csv_linje(t))) == ts,
    decreases ts.len(),
{
    let m = ts.map_values(|t: TrekningInnhold| historikk::csv_linje(t));
    if ts.len() == 0 {
        assert(historikk::lest(m) =~= ts);
    } else {
        let d = ts.drop_last();
        assert forall|i: int| 0 <= i < d.len() implies skrivbar(#[trigger] d[i]) by {
            assert(d[i] == ts[i]);
        }
        lemma_lest(d);
        assert(m.drop_last() =~= d.map_values(|t: TrekningInnhold| historikk::csv_linje(t)));
        assert(skrivbar(ts[ts.len() - 1]));
        lemma_linje(ts.last());
        assert(m.last() == historikk::csv_linje(ts.last()));
        assert(historikk::lest(m) =~= ts);
    }
}

/// Whether the draws stand in order of date.
pub open spec fn i_orden(ts: Seq<TrekningInnhold>) -> bool {
    forall|i: int, j: int| 0 <= i < j < ts.len() ==> (#[trigger] ts[i]).dag <= (#[trigger] ts[j]).dag
}

/// Whether each draw is of a later date than the one before it.
pub open spec fn stigende(ts: Seq<TrekningInnhold>) -> bool {
    forall|i: int, j: int| 0 <= i < j < ts.len() ==> (#[trigger] ts[i]).dag < (#[trigger] ts[j]).dag
}

/// Whether the day numbers are those of dates.
pub open spec fn datoer(ts: Seq<TrekningInnhold>) -> bool {
    forall|i: int| 0 <= i < ts.len() ==> i32::MIN <= (#[trigger] ts[i]).dag <= i32::MAX
}

/// A file that was written for draws in order of date is read as those draws.
pub proof fn law_csv_rundtur(ts: Seq<TrekningInnhold>)
    requires
        forall|i: int| 0 <= i < ts.len() ==> skrivbar(#[trigger] ts[i]),
        i_orden(ts),
        datoer(ts),
    ensures
        historikk::csv_lest(historikk::csv_tekst(ts)) == ts,
{
    let hode = "dato;hovedtall;ekstra"@;
    let m = ts.map_values(|t: TrekningInnhold| historikk::csv_linje(t));
    reveal_strlit("dato;hovedtall;ekstra");
    reveal_strlit("dato");
    assert(!hode.contains('\n')) by {
        assert forall|i: int| 0 <= i < hode.len() implies hode[i] != '\n' by {}
    }
    text::law_lines_concat(hode, historikk::csv_linjer(ts));
    lemma_linjer(ts);
    let l = text::lines_of(historikk::csv_tekst(ts));
    assert(text::without_cr(hode) == hode);
    assert(l == seq![hode] + m);
    assert(hode.subrange(0, 4) =~= "dato"@);
    assert(historikk::hode(l[0]));
    assert(l.skip(1) =~= m);
    if ts.len() > 0 {
        assert(skrivbar(ts[0]));
        lemma_linje(ts[0]);
        assert(m[0] == historikk::csv_linje(ts[0]));
    }
    assert(historikk::etter_hode(m) == m);
    assert(historikk::etter_hode(l) == m);
    lemma_lest(ts);
    let k = historikk::dager(ts);
    order::lemma_order_sorted(k);
    assert(historikk::sortert(ts) =~= ts);
}

// ---------------------------------------------------------------------------
// Merging
// ---------------------------------------------------------------------------

/// The first draw of a date.
pub open spec fn forste_av(ts: Seq<TrekningInnhold>, dag: int) -> Option<TrekningInnhold>
    decreases ts.len(),
{
    if ts.len() == 0 {
        None
    } else if ts[0].dag == dag {
        Some(ts[0])
    } else {
        forste_av(ts.skip(1), dag)
    }
}

proof fn lemma_forste_av(ts: Seq<TrekningInnhold>, j: int)
    requires
        0 <= j < ts.len(),
        forall|k: int| 0 <= k < j ==> (#[trigger] ts[k]).dag != ts[j].dag,
    ensures
        forste_av(ts, ts[j].dag) == Some(ts[j]),
    decreases j,
{
    if j > 0 {
        let r = ts.skip(1);
        assert forall|k: int| 0 <= k < j - 1 implies (#[trigger] r[k]).dag != r[j - 1].dag by {
            assert(r[k] == ts[k + 1]);
        }
        assert(ts[0].dag != ts[j].dag);
        lemma_forste_av(r, j - 1);
    }
}

proof fn lemma_sortert(s: Seq<TrekningInnhold>)
    requires
        datoer(s),
    ensures
        i_orden(historikk::sortert(s)),
        datoer(historikk::sortert(s)),
        historikk::sortert(s).len() == s.len(),
{
    let k = historikk::dager(s);
    order::law_order_is_stable(k);
    let o = order::order_of(k);
    let r = historikk::sortert(s);
    assert forall|i: int| 0 <= i < r.len() implies i32::MIN <= (#[trigger] r[i]).dag <= i32::MAX by {
        assert(0 <= o[i] < k.len());
        assert(r[i] == s[o[i]]);
    }
    assert forall|i: int, j: int| 0 <= i < j < r.len() implies (#[trigger] r[i]).dag <= (#[trigger] r[j]).dag by {
        assert(order::earlier(k, o[i], o[j]));
        assert(r[i] == s[o[i]] && r[j] == s[o[j]]);
        assert(k[o[i]] == s[o[i]].dag as i128 && k[o[j]] == s[o[j]].dag as i128);
    }
}

proof fn lemma_uten_gjentak(s: Seq<TrekningInnhold>)
    requires
        i_orden(s),
        datoer(s),
    ensures
        stigende(historikk::uten_gjentak(s)),
        datoer(historikk::uten_gjentak(s)),
        s.len() > 0 ==> historikk::uten_gjentak(s).len() > 0 && historikk::uten_gjentak(s).last().dag
            == s.last().dag,
        forall|j: int| 0 <= j < s.len() ==> har_dag(historikk::uten_gjentak(s), (#[trigger] s[j]).dag),
        forall|i: int|
            0 <= i < historikk::uten_gjentak(s).len() ==> er_forste(
                s,
                #[trigger] historikk::uten_gjentak(s)[i],
            ),
    decreases s.len(),
{
    let r = historikk::uten_gjentak(s);
    if s.len() > 0 {
        let d = s.drop_last();
        let p = historikk::uten_gjentak(d);
        assert forall|i: int, j: int| 0 <= i < j < d.len() implies (#[trigger] d[i]).dag <= (#[trigger] d[j]).dag by {
            assert(d[i] == s[i] && d[j] == s[j]);
        }
        assert forall|i: int| 0 <= i < d.len() implies i32::MIN <= (#[trigger] d[i]).dag <= i32::MAX by {
            assert(d[i] == s[i]);
        }
        lemma_uten_gjentak(d);
        let n = s.len() - 1;
        if d.len() > 0 {
            assert(d.last() == s[n - 1]);
            assert(s[n - 1].dag <= s[n].dag);
        }
        assert forall|i: int, j: int| 0 <= i < j < r.len() implies (#[trigger] r[i]).dag < (#[trigger] r[j]).dag by {
            assert(r[i] == p[i]);
            if j < p.len() {
                assert(r[j] == p[j]);
            } else {
                assert(p[i].dag <= p.last().dag);
            }
        }
        assert forall|i: int| 0 <= i < r.len() implies i32::MIN <= (#[trigger] r[i]).dag <= i32::MAX by {
            if i < p.len() {
                assert(r[i] == p[i]);
            } else {
                assert(r[i] == s[n]);
            }
        }
        assert forall|j: int| 0 <= j < s.len() implies har_dag(r, (#[trigger] s[j]).dag) by {
            if j < n {
                assert(d[j] == s[j]);
                assert(har_dag(p, d[j].dag));
                let i = choose|i: int| 0 <= i < p.len() && (#[trigger] p[i]).dag == d[j].dag;
                assert(r[i] == p[i]);
            } else {
                assert(r[r.len() - 1].dag == s[n].dag);
            }
        }
        assert forall|i: int| 0 <= i < r.len() implies er_forste(s, #[trigger] r[i]) by {
            if i < p.len() {
                assert(r[i] == p[i]);
                assert(er_forste(d, p[i]));
                let j = choose|j: int|
                    0 <= j < d.len() && #[trigger] d[j] == p[i] && (forall|k: int|
                        0 <= k < j ==> (#[trigger] d[k]).dag != p[i].dag);
                assert(s[j] == r[i]);
                assert forall|k: int| 0 <= k < j implies (#[trigger] s[k]).dag != r[i].dag by {
                    assert(s[k] == d[k]);
                }
            } else {
                assert(r[i] == s[n]);
                assert forall|k: int| 0 <= k < n implies (#[trigger] s[k]).dag != r[i].dag by {
                    assert(s[k] == d[k]);
                    assert(har_dag(p, d[k].dag));
                    let q = choose|q: int| 0 <= q < p.len() && (#[trigger] p[q]).dag == d[k].dag;
                    assert(p[q].dag <= p.last().dag);
                    assert(p.last().dag == d.last().dag);
                    assert(d.last().dag <= s[n].dag);
                }
            }
        }
    }
}

/// Whether some draw is of that day.
pub open spec fn har_dag(ts: Seq<TrekningInnhold>, dag: int) -> bool {
    exists|i: int| 0 <= i < ts.len() && (#[trigger] ts[i]).dag == dag
}

spec fn er_forste(ts: Seq<TrekningInnhold>, t: TrekningInnhold) -> bool {
    exists|j: int|
        0 <= j < ts.len() && #[trigger] ts[j] == t && (forall|k: int|
            0 <= k < j ==> (#[trigger] ts[k]).dag != t.dag)
}

proof fn lemma_forste_sortert(s: Seq<TrekningInnhold>, t: TrekningInnhold)
    requires
        datoer(s),
        er_forste(historikk::sortert(s), t),
    ensures
        forste_av(s, t.dag) == Some(t),
{
    let k = historikk::dager(s);
    order::law_order_is_stable(k);
    let o = order::order_of(k);
    let r = historikk::sortert(s);
    let j = choose|j: int|
        0 <= j < r.len() && #[trigger] r[j] == t && (forall|q: int|
            0 <= q < j ==> (#[trigger] r[q]).dag != t.dag);
    assert(0 <= o[j] < s.len());
    assert(r[j] == s[o[j]]);
    assert forall|q: int| 0 <= q < o[j] implies (#[trigger] s[q]).dag != t.dag by {
        if s[q].dag == t.dag {
            assert(o.contains(q));
            let m = choose|m: int| 0 <= m < o.len() && o[m] == q;
            assert(r[m] == s[q]);
            if m < j {
                assert(r[m].dag != t.dag);
            } else if m > j {
                assert(order::earlier(k, o[j], o[m]));
                assert(k[o[j]] == k[o[m]]);
            }
        }
    }
    lemma_forste_av(s, o[j]);
}

/// Sorting and dropping repeats gives each date once, in order, with the draw
/// that came first among those of that date, and drops no date.
pub proof fn law_en_for_hver_dato(s: Seq<TrekningInnhold>)
    requires
        datoer(s),
    ensures
        stigende(historikk::uten_gjentak(historikk::sortert(s))),
        forall|i: int|
            0 <= i < historikk::uten_gjentak(historikk::sortert(s)).len() ==> forste_av(
                s,
                (#[trigger] historikk::uten_gjentak(historikk::sortert(s))[i]).dag,
            ) == Some(historikk::uten_gjentak(historikk::sortert(s))[i]),
        forall|j: int|
            0 <= j < s.len() ==> har_dag(
                historikk::uten_gjentak(historikk::sortert(s)),
                (#[trigger] s[j]).dag,
            ),
        datoer(historikk::uten_gjentak(historikk::sortert(s))),
{
    let q = historikk::sortert(s);
    let r = historikk::uten_gjentak(q);
    lemma_sortert(s);
    lemma_uten_gjentak(q);
    assert forall|i: int| 0 <= i < r.len() implies forste_av(s, (#[trigger] r[i]).dag) == Some(r[i]) by {
        assert(er_forste(q, r[i]));
        lemma_forste_sortert(s, r[i]);
    }
    let k = historikk::dager(s);
    order::law_order_is_stable(k);
    let o = order::order_of(k);
    assert forall|j: int| 0 <= j < s.len() implies har_dag(r, (#[trigger] s[j]).dag) by {
        assert(o.contains(j));
        let m = choose|m: int| 0 <= m < o.len() && o[m] == j;
        assert(q[m] == s[j]);
        assert(har_dag(r, q[m].dag));
    }
}

/// Two lists with one draw for each date, in order, that hold the same draws
/// are the same list.
proof fn lemma_samme(a: Seq<TrekningInnhold>, b: Seq<TrekningInnhold>)
    requires
        stigende(a),
        stigende(b),
        forall|i: int| 0 <= i < a.len() ==> b.contains(#[trigger] a[i]),
        forall|i: int| 0 <= i < b.len() ==> a.contains(#[trigger] b[i]),
    ensures
        a == b,
    decreases a.len(),
{
    if a.len() == 0 {
        if b.len() > 0 {
            assert(a.contains(b[0]));
        }
        assert(a =~= b);
    } else {
        assert(b.contains(a[0]));
        let x = a[a.len() - 1];
        let y = b[b.len() - 1];
        assert(b.contains(x));
        assert(a.contains(y));
        let i = choose|i: int| 0 <= i < b.len() && b[i] == x;
        let j = choose|j: int| 0 <= j < a.len() && a[j] == y;
        assert(x == y);
        let c = a.drop_last();
        let d = b.drop_last();
        assert forall|k: int| 0 <= k < c.len() implies d.contains(#[trigger] c[k]) by {
            assert(c[k] == a[k]);
            assert(b.contains(a[k]));
            let m = choose|m: int| 0 <= m < b.len() && b[m] == a[k];
            assert(a[k].dag < x.dag);
            assert(d[m] == c[k]);
        }
        assert forall|k: int| 0 <= k < d.len() implies c.contains(#[trigger] d[k]) by {
            assert(d[k] == b[k]);
            assert(a.contains(b[k]));
            let m = choose|m: int| 0 <= m < a.len() && a[m] == b[k];
            assert(b[k].dag < y.dag);
            assert(c[m] == d[k]);
        }
        assert(stigende(c)) by {
            assert forall|p: int, q: int| 0 <= p < q < c.len() implies (#[trigger] c[p]).dag < (#[trigger] c[q]).dag by {
                assert(c[p] == a[p] && c[q] == a[q]);
            }
        }
        assert(stigende(d)) by {
            assert forall|p: int, q: int| 0 <= p < q < d.len() implies (#[trigger] d[p]).dag < (#[trigger] d[q]).dag by {
                assert(d[p] == b[p] && d[q] == b[q]);
            }
        }
        lemma_samme(c, d);
        assert(a =~= c.push(x));
        assert(b =~= d.push(y));
    }
}

proof fn lemma_forste_i(a: Seq<TrekningInnhold>, b: Seq<TrekningInnhold>, i: int)
    requires
        stigende(a),
        0 <= i < a.len(),
    ensures
        forste_av(a + b, a[i].dag) == Some(a[i]),
{
    let s = a + b;
    assert forall|k: int| 0 <= k < i implies (#[trigger] s[k]).dag != s[i].dag by {
        assert(s[k] == a[k] && s[i] == a[i]);
    }
    assert(s[i] == a[i]);
    lemma_forste_av(s, i);
}

/// Merging draws that are in the history already changes nothing.
pub proof fn law_flettet_igjen(gamle: Seq<TrekningInnhold>, nye: Seq<TrekningInnhold>)
    requires
        datoer(gamle),
        datoer(nye),
    ensures
        historikk::flettet(historikk::flettet(gamle, nye), nye) == historikk::flettet(gamle, nye),
{
    let s = gamle + nye;
    let r = historikk::flettet(gamle, nye);
    assert(datoer(s)) by {
        assert forall|i: int| 0 <= i < s.len() implies i32::MIN <= (#[trigger] s[i]).dag <= i32::MAX by {
            if i < gamle.len() {
                assert(s[i] == gamle[i]);
            } else {
                assert(s[i] == nye[i - gamle.len()]);
            }
        }
    }
    law_en_for_hver_dato(s);
    let t = r + nye;
    assert(datoer(t)) by {
        assert forall|i: int| 0 <= i < t.len() implies i32::MIN <= (#[trigger] t[i]).dag <= i32::MAX by {
            if i < r.len() {
                assert(t[i] == r[i]);
            } else {
                assert(t[i] == nye[i - r.len()]);
            }
        }
    }
    law_en_for_hver_dato(t);
    let u = historikk::flettet(r, nye);
    assert forall|i: int| 0 <= i < u.len() implies r.contains(#[trigger] u[i]) by {
        assert(forste_av(t, u[i].dag) == Some(u[i]));
        lemma_forste_dag(t, u[i].dag);
        let j = choose|j: int| 0 <= j < t.len() && #[trigger] t[j] == u[i];
        let dag = u[i].dag;
        assert(har_dag(r, dag)) by {
            if j < r.len() {
                assert(t[j] == r[j]);
            } else {
                let k = j - r.len() + gamle.len();
                assert(s[k] == t[j]);
                assert(har_dag(r, s[k].dag));
            }
        }
        let m = choose|m: int| 0 <= m < r.len() && (#[trigger] r[m]).dag == dag;
        lemma_forste_i(r, nye, m);
        assert(r[m] == u[i]);
    }
    assert forall|i: int| 0 <= i < r.len() implies u.contains(#[trigger] r[i]) by {
        assert(t[i] == r[i]);
        assert(har_dag(u, t[i].dag));
        let m = choose|m: int| 0 <= m < u.len() && (#[trigger] u[m]).dag == r[i].dag;
        lemma_forste_i(r, nye, i);
        assert(forste_av(t, u[m].dag) == Some(u[m]));
        assert(u[m] == r[i]);
    }
    lemma_samme(u, r);
}

proof fn lemma_forste_dag(ts: Seq<TrekningInnhold>, dag: int)
    requires
        forste_av(ts, dag) is Some,
    ensures
        exists|j: int| 0 <= j < ts.len() && #[trigger] ts[j] == forste_av(ts, dag)->0,
        forste_av(ts, dag)->0.dag == dag,
    decreases ts.len(),
{
    if ts.len() > 0 && ts[0].dag != dag {
        lemma_forste_dag(ts.skip(1), dag);
        let j = choose|j: int| 0 <= j < ts.skip(1).len() && #[trigger] ts.skip(1)[j] == forste_av(ts, dag)->0;
        assert(ts[j + 1] == forste_av(ts, dag)->0);
    } else if ts.len() > 0 {
        assert(ts[0] == forste_av(ts, dag)->0);
    }
}

proof fn lemma_lest_vanlig(linjer: Seq<Seq<char>>)
    ensures
        historikk::vanlige(historikk::lest(linjer)),
    decreases linjer.len(),
{
    if linjer.len() > 0 {
        lemma_lest_vanlig(linjer.drop_last());
    }
}

proof fn lemma_sortert_vanlig(s: Seq<TrekningInnhold>)
    requires
        historikk::vanlige(s),
    ensures
        historikk::vanlige(historikk::sortert(s)),
{
    let k = historikk::dager(s);
    order::law_order_is_stable(k);
    let o = order::order_of(k);
    let r = historikk::sortert(s);
    assert forall|i: int| 0 <= i < r.len() implies (#[trigger] r[i]).hovedtall.len() > 0 by {
        assert(0 <= o[i] < k.len());
        assert(r[i] == s[o[i]]);
    }
}

/// What is read from a file has main numbers.
pub proof fn lemma_fil_vanlig(fil: Option<Seq<char>>)
    ensures
        historikk::vanlige(historikk::fil_lest(fil)),
{
    if let Some(f) = fil {
        let linjer = historikk::etter_hode(text::lines_of(f));
        lemma_lest_vanlig(linjer);
        lemma_sortert_vanlig(historikk::lest(linjer));
    }
}

/// Sorting and dropping repeats makes no draw up.
pub proof fn lemma_hentet(s: Seq<TrekningInnhold>, i: int)
    requires
        datoer(s),
        0 <= i < historikk::uten_gjentak(historikk::sortert(s)).len(),
    ensures
        exists|j: int| 0 <= j < s.len() && #[trigger] s[j] == historikk::uten_gjentak(historikk::sortert(s))[i],
{
    let r = historikk::uten_gjentak(historikk::sortert(s));
    law_en_for_hver_dato(s);
    assert(forste_av(s, r[i].dag) == Some(r[i]));
    lemma_forste_dag(s, r[i].dag);
}

/// What is merged from draws with main numbers has main numbers.
pub proof fn lemma_flettet_vanlig(gamle: Seq<TrekningInnhold>, nye: Seq<TrekningInnhold>)
    requires
        datoer(gamle + nye),
        historikk::vanlige(gamle),
        historikk::vanlige(nye),
    ensures
        historikk::vanlige(historikk::flettet(gamle, nye)),
{
    let s = gamle + nye;
    let r = historikk::flettet(gamle, nye);
    assert forall|i: int| 0 <= i < r.len() implies (#[trigger] r[i]).hovedtall.len() > 0 by {
        lemma_hentet(s, i);
        let j = choose|j: int| 0 <= j < s.len() && #[trigger] s[j] == r[i];
        if j < gamle.len() {
            assert(s[j] == gamle[j]);
        } else {
            assert(s[j] == nye[j - gamle.len()]);
        }
    }
}

/// A list of numbers from 0 to 255, joined with commas and with or without
/// blanks round each, is read as that list, in its order and with its repeats.
pub proof fn law_tall_liste(tall: Seq<u8>, for_: Seq<Seq<char>>, etter: Seq<Seq<char>>)
    requires
        for_.len() == tall.len(),
        etter.len() == tall.len(),
        forall|i: int| 0 <= i < tall.len() ==> text::blank(#[trigger] for_[i]),
        forall|i: int| 0 <= i < tall.len() ==> text::blank(#[trigger] etter[i]),
    ensures
        historikk::tall_i(text::joined(med_blanke(tall, for_, etter), seq![','])) == tall,
{
    let p = med_blanke(tall, for_, etter);
    if tall.len() == 0 {
        lemma_tall_i(tall);
        assert(p =~= historikk::tall_tekster(tall));
    } else {
        assert forall|i: int| 0 <= i < p.len() implies !(#[trigger] p[i]).contains(',') by {
            let d = number_text::decimal(tall[i] as nat);
            number_text::lemma_decimal(tall[i] as nat);
            assert(p[i] == for_[i] + d + etter[i]);
            assert forall|j: int| 0 <= j < p[i].len() implies p[i][j] != ',' by {
                if j < for_[i].len() {
                    assert(text::is_space(for_[i][j]));
                } else if j < for_[i].len() + d.len() {
                    assert(number_text::is_digit(d[j - for_[i].len()]));
                } else {
                    assert(text::is_space(etter[i][j - for_[i].len() - d.len()]));
                }
            }
        }
        text::law_split_join(p, ',');
        lemma_tall_blant_blanke(tall, for_, etter);
    }
}

/// The numbers with what stands round them.
pub open spec fn med_blanke(tall: Seq<u8>, for_: Seq<Seq<char>>, etter: Seq<Seq<char>>) -> Seq<Seq<char>> {
    Seq::new(tall.len(), |i: int| for_[i] + number_text::decimal(tall[i] as nat) + etter[i])
}

proof fn lemma_tall_blant_blanke(tall: Seq<u8>, for_: Seq<Seq<char>>, etter: Seq<Seq<char>>)
    requires
        for_.len() == tall.len(),
        etter.len() == tall.len(),
        forall|i: int| 0 <= i < tall.len() ==> text::blank(#[trigger] for_[i]),
        forall|i: int| 0 <= i < tall.len() ==> text::blank(#[trigger] etter[i]),
    ensures
        historikk::tall_blant(med_blanke(tall, for_, etter)) == tall,
    decreases tall.len(),
{
    let p = med_blanke(tall, for_, etter);
    if tall.len() == 0 {
        assert(historikk::tall_blant(p) =~= tall);
    } else {
        let n = tall.len() - 1;
        lemma_tall_blant_blanke(tall.drop_last(), for_.drop_last(), etter.drop_last());
        assert(p.drop_last() =~= med_blanke(tall.drop_last(), for_.drop_last(), etter.drop_last()));
        let d = number_text::decimal(tall.last() as nat);
        number_text::lemma_decimal(tall.last() as nat);
        number_text::law_decimal_read_back(tall.last() as nat);
        assert(number_text::is_digit(d[0]));
        assert(number_text::is_digit(d[d.len() - 1]));
        assert(text::blank(for_[n]) && text::blank(etter[n]));
        text::law_trimmed(for_[n], d, etter[n]);
        assert(p.last() == for_[n] + d + etter[n]);
        assert(historikk::tall_blant(p) =~= tall);
    }
}

proof fn lemma_tall_blant_sammen(a: Seq<Seq<char>>, b: Seq<Seq<char>>)
    ensures
        historikk::tall_blant(a + b) == historikk::tall_blant(a) + historikk::tall_blant(b),
    decreases b.len(),
{
    if b.len() == 0 {
        assert(a + b =~= a);
        assert(historikk::tall_blant(a) + historikk::tall_blant(b) =~= historikk::tall_blant(a));
    } else {
        lemma_tall_blant_sammen(a, b.drop_last());
        assert((a + b).drop_last() =~= a + b.drop_last());
        assert(historikk::tall_blant(a + b) =~= historikk::tall_blant(a) + historikk::tall_blant(b));
    }
}

/// What stands on both sides of a comma is read by itself, in order; a piece that
/// is no number from 0 to 255 is left out.
pub proof fn law_tall_stykkevis(a: Seq<char>, b: Seq<char>)
    ensures
        historikk::tall_i(a + seq![','] + b) == historikk::tall_i(a) + historikk::tall_i(b),
        !a.contains(',') ==> historikk::tall_i(a) == (match number_text::at_most(
            number_text::nat_of(text::trimmed(a)),
            255,
        ) {
            Some(n) => seq![n as u8],
            None => Seq::empty(),
        }),
{
    text::law_split_concat(a, ',', b);
    lemma_tall_blant_sammen(text::split_on(a, ','), text::split_on(b, ','));
    if !a.contains(',') {
        text::lemma_split_none(a, ',');
        let l = seq![a];
        assert(l.drop_last() =~= Seq::empty());
        assert(historikk::tall_blant(l.drop_last()) =~= Seq::<u8>::empty());
        assert(l.last() == a);
        reveal_with_fuel(historikk::tall_blant, 2);
        assert(historikk::tall_blant(l) =~= (match number_text::at_most(
            number_text::nat_of(text::trimmed(a)),
            255,
        ) {
            Some(n) => seq![n as u8],
            None => Seq::empty(),
        }));
    }
}

/// Tidying keeps nothing from before the day, and one draw for each date.
pub proof fn law_ryddet(ts: Seq<TrekningInnhold>, fra: int)
    requires
        datoer(ts),
    ensures
        stigende(historikk::ryddet(ts, fra)),
        forall|i: int|
            0 <= i < historikk::ryddet(ts, fra).len() ==> (#[trigger] historikk::ryddet(ts, fra)[i]).dag
                >= fra,
        forall|j: int|
            0 <= j < ts.len() && (#[trigger] ts[j]).dag >= fra ==> har_dag(
                historikk::ryddet(ts, fra),
                ts[j].dag,
            ),
{
    let p = |t: TrekningInnhold| t.dag >= fra;
    let f = historikk::fra_og_med(ts, fra);
    let r = historikk::ryddet(ts, fra);
    assert forall|i: int| 0 <= i < f.len() implies p(#[trigger] f[i]) && ts.contains(f[i]) by {
        ts.lemma_filter_pred(p, i);
        assert(f.contains(f[i]));
        ts.lemma_filter_contains_rev(p, f[i]);
    }
    assert(datoer(f)) by {
        assert forall|i: int| 0 <= i < f.len() implies i32::MIN <= (#[trigger] f[i]).dag <= i32::MAX by {
            assert(ts.contains(f[i]));
            let k = choose|k: int| 0 <= k < ts.len() && ts[k] == f[i];
            assert(ts[k].dag == f[i].dag);
        }
    }
    law_en_for_hver_dato(f);
    assert forall|i: int| 0 <= i < r.len() implies (#[trigger] r[i]).dag >= fra by {
        assert(forste_av(f, r[i].dag) == Some(r[i]));
        lemma_forste_dag(f, r[i].dag);
        let j = choose|j: int| 0 <= j < f.len() && #[trigger] f[j] == r[i];
        assert(p(f[j]));
    }
    assert forall|j: int| 0 <= j < ts.len() && (#[trigger] ts[j]).dag >= fra implies har_dag(r, ts[j].dag) by {
        assert(p(ts[j]));
        ts.lemma_filter_contains(p, j);
        let k = choose|k: int| 0 <= k < f.len() && f[k] == ts[j];
        assert(har_dag(r, f[k].dag));
    }
}

}
