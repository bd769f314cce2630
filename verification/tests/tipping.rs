use b_rs::dato::Dato;
use b_rs::json;
use b_rs::tipping::analyse::analyser;
use b_rs::tipping::henting::{
    alle_feilet, finn_siste_id, kildefeil, kilder, sonde_urler, trekning_url, veikkaus_uke_url, ventetid,
    Idvandring, Kilde, Kildesok, Ukevandring, VEIKKAUS_BASE,
};
use b_rs::tipping::historikk::{flett, les_csv, oppdater_csv, rydd, skriv_csv, tall_liste, tell_hoppet, Trekning};
use b_rs::tipping::jakt::{jakt_i_side, jakt_slutt, kort_svar, legg_til_kandidater};
use b_rs::tipping::kupong::{feil_tekst, resultat_tekst, tapsnote, tolk_kupong, totaler, treff};
use b_rs::tipping::rekker::{beskriv, beste_rekker, popularitet, Rng};
use b_rs::tipping::side::{
    finn_api_tokener, finn_js_urler, finn_utdrag, les_svar, objekt_rundt, rens_svar, trekk_ut_innbakte_trekninger,
};
use b_rs::tipping::spill::{csv_sti, kombinasjoner, nt_side_url, Spill};
use b_rs::tipping::tolk::{tolk_dato_tekst, tolk_trekning, tolk_trekninger_liste};
use b_rs::tipping::valg::{ombryt, tolk_valg};
use b_rs::tipping::visning::{
    dom, historikk_i_vinduet, kopi_tekst, kupong_tall, neste_fro, oftest, rekke_linje, sjeldnest, vindusdom,
};

fn dato(aar: i32, maaned: u32, dag: u32) -> Dato {
    Dato::fra_ymd(aar, maaned, dag).unwrap()
}

fn trekning(d: Dato, hovedtall: Vec<u8>, ekstra: Vec<u8>) -> Trekning {
    Trekning { dato: d, hovedtall, ekstra }
}

#[test]
fn halve_innsatsen_betales_tilbake() {
    for spill in Spill::alle() {
        assert_eq!(spill.tilbakebetaling(), 50);
    }
}

#[test]
fn kombinatorikk_stemmer_med_offisielle_odds() {
    assert_eq!(kombinasjoner(34, 7), 5_379_616);
    assert_eq!(Spill::Lotto.kombinasjoner(), 5_379_616);
    assert_eq!(Spill::Vikinglotto.kombinasjoner(), 61_357_560);
    assert_eq!(Spill::Eurojackpot.kombinasjoner(), 139_838_160);
}

#[test]
fn kombinasjoner_i_ytterkantene() {
    assert_eq!(kombinasjoner(5, 6), 0);
    assert_eq!(kombinasjoner(5, 5), 1);
    assert_eq!(kombinasjoner(0, 0), 1);
    assert_eq!(kombinasjoner(34, 27), kombinasjoner(34, 7));
}

#[test]
fn spillnavn_leses_uansett_bokstaver() {
    assert_eq!(Spill::fra_navn("LOTTO"), Some(Spill::Lotto));
    assert_eq!(Spill::fra_navn("Viking"), Some(Spill::Vikinglotto));
    assert_eq!(Spill::fra_navn("euro"), Some(Spill::Eurojackpot));
    assert_eq!(Spill::fra_navn("keno"), None);
    assert_eq!(csv_sti("data/tipping", Spill::Lotto), "data/tipping/lotto.csv");
    assert_eq!(csv_sti("", Spill::Lotto), "lotto.csv");
    assert_eq!(nt_side_url(Spill::Vikinglotto), "https://www.norsk-tipping.no/lotteri/vikinglotto/resultater");
}

#[test]
fn csv_rundtur() {
    let trekninger = vec![
        trekning(dato(2026, 1, 3), vec![2, 9, 17, 22, 28, 31, 34], vec![5]),
        trekning(dato(2026, 1, 10), vec![1, 4, 12, 19, 25, 30, 33], vec![]),
    ];
    let tekst = skriv_csv(&trekninger);
    assert_eq!(
        tekst,
        "dato;hovedtall;ekstra\n2026-01-03;2,9,17,22,28,31,34;5\n2026-01-10;1,4,12,19,25,30,33;\n"
    );
    assert_eq!(les_csv(&tekst), trekninger);
}

#[test]
fn csv_hopper_over_det_som_ikke_kan_leses() {
    let fil = "# kommentar\ndato;hovedtall;ekstra\r\n2026-02-01; 3 ,x,4;\n\nbare tull\n2026-13-01;1\n2026-01-01;7,300;8;9\n2026-03-01;;1\n";
    let lest = les_csv(fil);
    assert_eq!(lest.len(), 2);
    assert_eq!(lest[0], trekning(dato(2026, 1, 1), vec![7], vec![8]));
    assert_eq!(lest[1], trekning(dato(2026, 2, 1), vec![3, 4], vec![]));
}

#[test]
fn tolker_api_svar_med_ulike_feltnavn() {
    let svar = json::les(
        r#"{"drawID": 1234, "drawDate": "14.06.2026",
                "resultInfo": {"winningNumbers": ["4","18","23","29","33","41"],
                                "vikingNumbers": [3]}}"#,
    )
    .unwrap();
    let t = tolk_trekning(&svar, Spill::Vikinglotto).unwrap();
    assert_eq!(t.dato, dato(2026, 6, 14));
    assert_eq!(t.hovedtall, vec![4, 18, 23, 29, 33, 41]);
    assert_eq!(t.ekstra, vec![3]);
    assert_eq!(finn_siste_id(&svar), Some(1234));

    let svar2 = json::les(
        r#"{"drawDate": 1770000000000,
                "mainNumbers": [{"number": 7}, {"number": 12}, {"number": 20},
                                 {"number": 31}, {"number": 45}],
                "starNumbers": [{"number": 2}, {"number": 9}]}"#,
    )
    .unwrap();
    let t2 = tolk_trekning(&svar2, Spill::Eurojackpot).unwrap();
    assert_eq!(t2.hovedtall, vec![7, 12, 20, 31, 45]);
    assert_eq!(t2.ekstra, vec![2, 9]);
}

#[test]
fn tolker_veikkaus_ukesvar() {
    let svar = json::les(
        r#"[{"gameName":"EJACKPOT","status":"RESULTS_AVAILABLE",
                 "drawTime":1770000000000,
                 "results":[{"primary":["7","12","20","31","45"],
                              "secondary":["2","9"]}]},
                {"gameName":"EJACKPOT","status":"OPEN",
                 "drawTime":1770604800000,
                 "results":[]}]"#,
    )
    .unwrap();
    let trekninger = tolk_trekninger_liste(&svar, Spill::Eurojackpot);
    assert_eq!(trekninger.len(), 1, "åpen fremtidig trekning skal hoppes over");
    assert_eq!(trekninger[0].hovedtall, vec![7, 12, 20, 31, 45]);
    assert_eq!(trekninger[0].ekstra, vec![2, 9]);

    let pakket = json::les(
        r#"{"draws":[{"drawTime":1770000000000,
                           "results":[{"primary":["4","18","23","29","33","41"],
                                        "secondary":["3"]}]}]}"#,
    )
    .unwrap();
    assert_eq!(tolk_trekninger_liste(&pakket, Spill::Vikinglotto).len(), 1);

    let url = veikkaus_uke_url(VEIKKAUS_BASE, "EJACKPOT", dato(2026, 1, 2));
    assert_eq!(
        url,
        "https://www.veikkaus.fi/api/draw-results/v1/games/EJACKPOT/draws/by-week/2026-W01"
    );
}

#[test]
fn uken_folger_torsdagen() {
    assert!(veikkaus_uke_url("b", "n", dato(2025, 12, 29)).ends_with("2026-W01"));
    assert!(veikkaus_uke_url("b", "n", dato(2027, 1, 3)).ends_with("2026-W53"));
}

#[test]
fn tolker_resultatsidens_winner_number_format() {
    let svar = json::les(
        r#"{"drawDate":"2026-07-11T16:30:00.000Z","drawId":1575,
                "drawName":"LOTTO-11.07.2026 18:30","isFinalized":true,
                "prize":[{"id":1,"name":"7 rette","value":"2855715","winners":"5"}],
                "winnerNumber":[
                  {"drawOrder":1,"name":"Vinnertall 1","number":"30","type":1},
                  {"drawOrder":2,"name":"Vinnertall 2","number":"11","type":1},
                  {"drawOrder":3,"name":"Vinnertall 3","number":"3","type":1},
                  {"drawOrder":4,"name":"Vinnertall 4","number":"24","type":1},
                  {"drawOrder":5,"name":"Vinnertall 5","number":"18","type":1},
                  {"drawOrder":6,"name":"Vinnertall 6","number":"16","type":1},
                  {"drawOrder":7,"name":"Vinnertall 7","number":"7","type":1},
                  {"drawOrder":11,"name":"Tilleggstall 1","number":"28","type":2}]}"#,
    )
    .unwrap();
    let t = tolk_trekning(&svar, Spill::Lotto).unwrap();
    assert_eq!(t.dato, dato(2026, 7, 11));
    assert_eq!(t.hovedtall, vec![3, 7, 11, 16, 18, 24, 30]);
    assert_eq!(t.ekstra, vec![28]);
}

#[test]
fn tilleggstall_kjennes_paa_navnet() {
    let svar = json::les(
        r#"{"date":"01.02.2026","winnerNumbers":[
            {"number":5,"name":"a"},{"number":4},{"number":3},{"number":2},{"number":1},
            {"number":9,"name":"TILLEGGSTALL"}]}"#,
    )
    .unwrap();
    let t = tolk_trekning(&svar, Spill::Eurojackpot).unwrap();
    assert_eq!(t.dato, dato(2026, 2, 1));
    assert_eq!(t.hovedtall, vec![1, 2, 3, 4, 5]);
    assert_eq!(t.ekstra, vec![9]);
    assert!(tolk_trekning(&svar, Spill::Lotto).is_none());
}

#[test]
fn datoer_i_tekst() {
    assert_eq!(tolk_dato_tekst(" 2026-07-11T16:30:00Z "), Some(dato(2026, 7, 11)));
    assert_eq!(tolk_dato_tekst("11.07.2026"), Some(dato(2026, 7, 11)));
    assert_eq!(tolk_dato_tekst("2026-7"), None);
    assert_eq!(tolk_dato_tekst("ååååååååå"), None);
}

#[test]
fn skraper_innbakt_json_fra_resultatsiden() {
    let html = r#"<script>window.__STATE__={"data":"{\"draws\":[{\"drawDate\":\"2026-07-11T16:30:00.000Z\",\"drawId\":1575,\"drawState\":12,\"isFinalized\":true,\"mainNumbers\":[2,9,17,22,28,31,34],\"additionalNumbers\":[5],\"prize\":[{\"name\":\"7 rette\"}]},{\"drawDate\":\"2026-07-04T16:30:00.000Z\",\"drawId\":1574,\"mainNumbers\":[1,4,12,19,25,30,33],\"additionalNumbers\":[7]}]}"}</script>"#;
    let trekninger = trekk_ut_innbakte_trekninger(html, Spill::Lotto);
    assert_eq!(trekninger.len(), 2);
    assert_eq!(trekninger[0].dato, dato(2026, 7, 4));
    assert_eq!(trekninger[1].hovedtall, vec![2, 9, 17, 22, 28, 31, 34]);
    assert_eq!(trekninger[1].ekstra, vec![5]);
    let linjer = jakt_i_side(html);
    assert!(linjer.iter().any(|l| l.starts_with("Hele første trekningsobjekt:\n{\n  \"additionalNumbers\"")));
    assert!(linjer.iter().any(|l| l.contains("fant «mainNumbers» i HTML")));
}

#[test]
fn oppdater_csv_slaar_sammen_uten_duplikater() {
    let a = trekning(dato(2026, 7, 4), vec![1, 4, 12, 19, 25, 30, 33], vec![7]);
    let b = trekning(dato(2026, 7, 11), vec![2, 9, 17, 22, 28, 31, 34], vec![5]);
    let (fil, n) = oppdater_csv(None, &vec![a.clone()]);
    assert_eq!(n, 1);
    let (fil2, n2) = oppdater_csv(Some(&fil), &vec![a.clone(), b.clone()]);
    assert_eq!(n2, 2);
    let (fil3, n3) = oppdater_csv(Some(&fil2), &vec![a, b]);
    assert_eq!(n3, 2);
    assert_eq!(fil3, fil2);
}

#[test]
fn fletting_beholder_den_gamle() {
    let gammel = trekning(dato(2026, 7, 4), vec![1], vec![]);
    let ny = trekning(dato(2026, 7, 4), vec![2], vec![]);
    let eldre = trekning(dato(2026, 6, 27), vec![3], vec![]);
    let alle = flett(&vec![gammel.clone()], &vec![ny.clone(), eldre.clone()]);
    assert_eq!(alle, vec![eldre.clone(), gammel.clone()]);
    assert_eq!(rydd(&vec![gammel.clone(), ny, eldre], dato(2026, 7, 1)), vec![gammel]);
}

#[test]
fn jakten_finner_js_urler_og_api_stier() {
    let html = r#"<html><script src="/static/main.abc123.js"></script>
            <link href="https://cdn.norsk-tipping.no/chunk.def.js"><body>
            {"winningNumbers":[1,2,3]}</body></html>"#;
    let urler = finn_js_urler(html, "https://www.norsk-tipping.no/lotteri/lotto/resultater");
    assert!(urler.contains(&"https://www.norsk-tipping.no/static/main.abc123.js".to_string()));
    assert!(urler.contains(&"https://cdn.norsk-tipping.no/chunk.def.js".to_string()));

    let js = r#"fetch("/api/lottery/v2/results/lotto/latest");const x="https://api.norsk-tipping.no/gameresult/draws";const uinteressant="/api/banner/v1";"#;
    let tokener = finn_api_tokener(js);
    assert!(tokener.contains(&"/api/lottery/v2/results/lotto/latest".to_string()));
    assert!(tokener.contains(&"https://api.norsk-tipping.no/gameresult/draws".to_string()));
    assert!(!tokener.iter().any(|t| t.contains("banner")));

    let utdrag = finn_utdrag(html, "winningNumbers", 40);
    assert_eq!(utdrag.len(), 1);
    assert!(utdrag[0].1.starts_with("winningNumbers"));
}

#[test]
fn skriptadresser_fylles_ut_og_gjentas_ikke() {
    let html = "\"//cdn.no/a.js\" 'rel/b.js' 'rel/b.js' \"x y.js\" '.js' \"/c.js\"";
    assert_eq!(
        finn_js_urler(html, "https://side.no/x//"),
        vec![
            "https://cdn.no/a.js",
            "https://side.no/x/rel/b.js",
            "https://www.norsk-tipping.no/c.js",
        ]
    );
}

#[test]
fn utdrag_klippes_paa_tegngrense() {
    let u = finn_utdrag("xxåå\nåxx", "xx", 5);
    assert_eq!(u.len(), 2);
    assert_eq!(u[0].1, "xxå");
    assert_eq!(u[1].1, "xx");
    assert_eq!(finn_utdrag("a\na\na\na\na\n", "a", 2).len(), 4);
    assert_eq!(finn_utdrag("a\na", "a", 2)[0].1, "a ");
}

#[test]
fn svar_renses_til_json() {
    assert_eq!(rens_svar("while(true);while(true);/* 0; {\"a\":[1]} tull"), "{\"a\":[1]}");
    assert_eq!(rens_svar("foran [1,{\"a\":2}] bak"), "[1,{\"a\":2}]");
    assert_eq!(rens_svar(" bare tekst "), "bare tekst");
    assert!(les_svar("/* */{\"a\":1}").is_some());
    assert!(les_svar("ikke json").is_none());
    assert_eq!(kort_svar("a\nb\r"), "a b ");
}

#[test]
fn bursdagstung_rekke_er_mer_populaer_enn_hoy_rekke() {
    let bursdag = popularitet(&[3, 7, 11, 14, 21, 24, 31], &[], Spill::Lotto);
    let hoy = popularitet(&[2, 16, 25, 28, 32, 33, 34], &[], Spill::Lotto);
    assert!(bursdag.over(hoy));
    let rekkefolge = popularitet(&[1, 2, 3, 4, 5, 6, 7], &[], Spill::Lotto);
    assert!(rekkefolge.over(bursdag));
}

#[test]
fn popularitet_har_faste_poeng() {
    // 7 * 2.0 for days and months, 2 * 0.5 for luck, 6 * 1.5 for neighbours,
    // 10 for the even spacing, 3 for the narrow spread.
    assert_eq!(popularitet(&[1, 2, 3, 4, 5, 6, 7], &[], Spill::Lotto).tideler, 370);
    // 1.5 for three numbers that end in 4, 5 * 0.5 for all even.
    assert_eq!(popularitet(&[34, 44, 54, 66, 90], &[3, 12], Spill::Eurojackpot).tideler, 53);
    assert_eq!(popularitet(&[], &[], Spill::Lotto).tideler, 0);
}

#[test]
fn tilfeldige_tall_er_faste_for_et_fro() {
    let mut rng = Rng::ny(0);
    assert_eq!(rng.tilstand, 1);
    let a = rng.neste();
    assert_eq!(rng.tilstand, 1 ^ (1 << 25) ^ ((1 ^ (1 << 25)) >> 27));
    assert_eq!(a, rng.tilstand.wrapping_mul(0x2545F4914F6CDD1D));
    for _ in 0..1000 {
        let t = rng.tall(34);
        assert!((1..=34).contains(&t));
    }
}

#[test]
fn beste_rekker_er_gyldige_og_ulike() {
    for spill in Spill::alle() {
        let rekker = beste_rekker(spill, 10, 42);
        assert_eq!(rekker.len(), 10, "{}", spill.navn());
        for r in &rekker {
            assert_eq!(r.hovedtall.len(), spill.hovedtall_antall());
            assert!(r.hovedtall.iter().all(|t| (1..=spill.hovedtall_maks()).contains(t)));
            assert_eq!(r.ekstra.len(), spill.ekstra_antall());
            assert!(r.ekstra.iter().all(|t| (1..=spill.ekstra_maks()).contains(t)));
            let mut h = r.hovedtall.clone();
            h.dedup();
            assert_eq!(h.len(), r.hovedtall.len());
        }
        for (i, a) in rekker.iter().enumerate() {
            for b in &rekker[i + 1..] {
                let felles = a.hovedtall.iter().filter(|t| b.hovedtall.contains(t)).count();
                assert!(felles <= 2, "{}: {} felles tall", spill.navn(), felles);
            }
        }
        let igjen = beste_rekker(spill, 10, 42);
        assert_eq!(rekker[0].hovedtall, igjen[0].hovedtall);
    }
}

#[test]
fn rekkene_staar_med_den_minst_populaere_forst() {
    for spill in Spill::alle() {
        let p: Vec<_> = beste_rekker(spill, 10, 7)
            .iter()
            .map(|r| popularitet(&r.hovedtall, &r.ekstra, spill))
            .collect();
        assert!(p.windows(2).all(|w| !w[0].over(w[1])));
    }
}

#[test]
fn rekker_vises_med_begrunnelse() {
    assert_eq!(beskriv(&[1, 2, 33], Spill::Lotto), "1 tall over 31 (unngår bursdagsrekker), sum 36, 2 odde/1 par");
    assert_eq!(beskriv(&[2, 4], Spill::Lotto), "sum 6, 0 odde/2 par");
    let mut rekker = beste_rekker(Spill::Vikinglotto, 2, 7);
    rekker[0].hovedtall = vec![2, 9, 17];
    rekker[0].ekstra = vec![3];
    rekker[0].begrunnelse = "fordi".to_string();
    rekker[1].hovedtall = vec![40];
    rekker[1].ekstra = vec![];
    assert_eq!(rekke_linje(1, &rekker[0]), "   1.  2  9 17  +[3]   (fordi)");
    assert_eq!(kopi_tekst(&rekker), "2 9 17 + 3\n40");
    assert_eq!(neste_fro(1), 6364136223846793006);
}

#[test]
fn analyse_teller_riktig_og_chi2_er_fornuftig() {
    let mut trekninger = Vec::new();
    let start = dato(1996, 1, 6);
    for uke in 0..340u32 {
        let d = start.pluss_dager(7 * uke as i32).unwrap();
        let forste = (uke * 7) % 34;
        let hovedtall: Vec<u8> = (0..7).map(|i| ((forste + i) % 34) as u8 + 1).collect();
        trekninger.push(trekning(d, hovedtall, vec![]));
    }
    let analyse = analyser(Spill::Lotto, &trekninger).unwrap();
    assert_eq!(analyse.antall_trekninger, 340);
    let sum_antall: usize = analyse.hovedtall.iter().map(|s| s.antall).sum();
    assert_eq!(sum_antall, 340 * 7);
    assert!((analyse.chi2.teller as f64 / analyse.chi2.nevner as f64) < 1.0);
    assert!(analyse.innenfor_tilfeldighet);
    assert_eq!(analyse.forste, start);
    assert_eq!(analyse.siste, start.pluss_dager(7 * 339).unwrap());
    assert_eq!(analyse.chi2_frihetsgrader, 33);
}

#[test]
fn analyse_av_skjev_historikk() {
    assert_eq!(
        analyser(Spill::Vikinglotto, &vec![]).err(),
        Some("ingen trekninger å analysere for Vikinglotto".to_string())
    );
    let mut trekninger = Vec::new();
    for i in 0..20 {
        trekninger.push(trekning(dato(2020, 1, 1).pluss_dager(i).unwrap(), vec![1, 2, 3, 4, 5, 6], vec![1, 8]));
    }
    let a = analyser(Spill::Vikinglotto, &trekninger).unwrap();
    assert!(!a.innenfor_tilfeldighet);
    assert_eq!(a.hovedtall[0].antall, 20);
    assert_eq!(a.hovedtall[0].sist_trukket, Some(dato(2020, 1, 20)));
    assert_eq!(a.hovedtall[10].sist_trukket, None);
    assert_eq!(a.ekstra.len(), 5);
    assert_eq!(a.ekstra[0].forventet.teller, 20);
    assert_eq!(a.ekstra[0].varians.teller, 80);
    assert_eq!(a.ekstra[0].varians.nevner, 25);
    // 6 * (48*20 - 120)^2 + 42 * 120^2
    assert_eq!(a.chi2.teller, 6 * 840 * 840 + 42 * 120 * 120);
    assert_eq!(a.chi2.nevner, 48 * 120);
    assert_eq!(oftest(&a.hovedtall, 2), "1 (20×)  2 (20×)");
    assert_eq!(sjeldnest(&a.hovedtall, 2), "48 (0×)  47 (0×)");
}

#[test]
fn kilder_proves_i_rekkefolge() {
    let k = kilder(Spill::Lotto, None);
    assert_eq!(k.len(), 3);
    assert!(matches!(k[0], Kilde::Side));
    let e = kilder(Spill::Eurojackpot, None);
    assert_eq!(e.len(), 5);
    assert_eq!(kildefeil(&e[0], None), "Veikkaus EJACKPOT (https://www.veikkaus.fi/api/draw-results/v1): ingen trekninger");
    assert_eq!(kildefeil(&e[2], Some("nede")), "Norsk Tippings resultatside: nede");
    let egen = kilder(Spill::Lotto, Some("http://x/{spill}/{id}"));
    assert_eq!(egen.len(), 1);
    assert_eq!(trekning_url("http://x/{spill}/{id}", Spill::Lotto, Some(7)), "http://x/lotto/7");
    assert_eq!(trekning_url("http://x/{spill}/{id}", Spill::Lotto, None), "http://x/lotto/");
    let alt = alle_feilet(Spill::Lotto, &vec!["a".to_string(), "b".to_string()]);
    assert!(alt.ends_with("Detaljer: a · b"));
    assert_eq!(sonde_urler(Spill::Lotto, dato(2026, 1, 2)).len(), 5);
    assert_eq!(sonde_urler(Spill::Vikinglotto, dato(2026, 1, 2)).len(), 8);
    assert_eq!(ventetid(0), Some(0));
    assert_eq!(ventetid(3), Some(1800));
    assert_eq!(ventetid(4), None);
}

#[test]
fn vandringen_gir_seg_etter_tomme_uker() {
    let mut u = Ukevandring::ny(dato(2026, 7, 11), vec![]);
    let fra = dato(2000, 1, 1);
    let mut uker = 0;
    while u.videre(fra) {
        let svar = if uker == 3 { Some(vec![trekning(u.dato, vec![1], vec![])]) } else { None };
        u.ta_imot(svar);
        uker += 1;
    }
    assert_eq!(uker, 4 + 26);
    assert_eq!(u.trekninger.len(), 1);
}

#[test]
fn vandringen_gir_seg_etter_feil_eller_gammel_trekning() {
    let fra = dato(2026, 1, 1);
    let mut v = Idvandring::ny(100, None);
    let mut n = 0;
    while v.neste().is_some() {
        v.ta_imot(None, fra);
        n += 1;
    }
    assert_eq!(n, 10);
    let mut w = Idvandring::ny(5, Some(trekning(dato(2026, 2, 1), vec![1], vec![])));
    assert_eq!(w.neste(), Some(4));
    w.ta_imot(Some(trekning(dato(2025, 12, 27), vec![1], vec![])), fra);
    assert_eq!(w.neste(), None);
    assert_eq!(w.trekninger.len(), 2);
}

#[test]
fn kandidater_samles_og_listes() {
    let mut k = Vec::new();
    legg_til_kandidater(&mut k, "\"/api/draw\" '/api/draw'");
    legg_til_kandidater(&mut k, "`/api/lotto`");
    assert_eq!(k, vec!["/api/draw", "/api/lotto"]);
    assert_eq!(jakt_slutt(&k), vec!["Mulige API-stier (2):", "  /api/draw", "  /api/lotto"]);
    assert_eq!(jakt_slutt(&vec![]), vec!["Ingen API-stier funnet i bundlene."]);
}

#[test]
fn kommandolinjen_leses() {
    let a = |s: &[&str]| -> Vec<String> { s.iter().map(|x| x.to_string()).collect() };
    let v = tolk_valg(&a(&[]), 2026, 739000, "data").unwrap();
    assert_eq!(v.spill, Spill::alle());
    assert_eq!((v.fra_aar, v.rekker, v.fro), (1996, 10, 739000));
    let w = tolk_valg(&a(&["viking", "--fra-aar", "2001", "--frø", "9", "--rekker", "3", "--mappe", "m"]), 2026, 1, "data").unwrap();
    assert_eq!(w.spill, vec![Spill::Vikinglotto]);
    assert_eq!((w.fra_aar, w.rekker, w.fro, w.mappe.as_str()), (2001, 3, 9, "m"));
    assert_eq!(tolk_valg(&a(&["--mappe"]), 2026, 1, "d").unwrap_err().tekst(), "--mappe mangler verdi");
    assert_eq!(tolk_valg(&a(&["--rekker", "x"]), 2026, 1, "d").unwrap_err().tekst(), "invalid digit found in string");
    assert_eq!(
        tolk_valg(&a(&["--fra-aar", ""]), 2026, 1, "d").unwrap_err().tekst(),
        "cannot parse integer from empty string"
    );
    assert_eq!(
        tolk_valg(&a(&["--fro", "99999999999999999999"]), 2026, 1, "d").unwrap_err().tekst(),
        "number too large to fit in target type"
    );
    assert_eq!(
        tolk_valg(&a(&["keno"]), 2026, 1, "d").unwrap_err().tekst(),
        "ukjent spill/flagg: keno (prøv `b-tipping` for hjelp)"
    );
}

#[test]
fn linjer_brytes_mellom_ord() {
    assert_eq!(ombryt("en to tre  fire", 7, "  "), "en to\n  tre\n  fire");
    assert_eq!(ombryt("  kjempelangt ord ", 4, ""), "kjempelangt\nord");
    assert_eq!(ombryt("", 10, "x"), "");
    // No way of breaking these words takes fewer lines.
    assert_eq!(ombryt("aa bb cc dd ee", 8, "").lines().count(), 2);
    assert_eq!(ombryt("aa bb cc dd ee", 7, "").lines().count(), 3);
}

#[test]
fn vinduet_sier_det_paa_sin_maate() {
    assert!(vindusdom(true).ends_with("er støy, ikke signal."));
    assert!(vindusdom(false).ends_with("før du tolker noe som helst."));
    assert!(dom(true) != vindusdom(true));
    assert_eq!(historikk_i_vinduet(12, "a", "b"), "12 trekninger · a – b");
}

#[test]
fn forste_kilde_med_trekninger_vinner() {
    let t = || vec![trekning(dato(2026, 1, 3), vec![1, 2, 3, 4, 5, 6, 7], vec![8])];
    let mut s = Kildesok::ny(Spill::Lotto, None);
    assert!(matches!(s.neste(), Some(Kilde::Side)));
    assert!(s.ta_imot(Ok(Vec::new())).is_none());
    assert!(matches!(s.neste(), Some(Kilde::DrawId { .. })));
    assert!(s.ta_imot(Err("nede".to_string())).is_none());
    assert_eq!(s.ta_imot(Ok(t())).unwrap().unwrap().len(), 1);
    // No source had any: all notes, in their order.
    let mut s = Kildesok::ny(Spill::Lotto, None);
    assert!(s.ta_imot(Ok(Vec::new())).is_none());
    assert!(s.ta_imot(Err("a".to_string())).is_none());
    let e = s.ta_imot(Err("b".to_string())).unwrap().unwrap_err();
    assert!(e.starts_with("alle kilder feilet for Lotto — "));
    assert!(e.contains("Detaljer: Norsk Tippings resultatside: fant ingen trekninger i HTML-en · Norsk Tipping ("));
    assert!(e.ends_with("): b"));
    assert!(s.neste().is_none());
    // A pattern of one's own has the last word.
    let mut s = Kildesok::ny(Spill::Eurojackpot, Some("http://x/{id}"));
    assert_eq!(s.ta_imot(Err("nei".to_string())).unwrap().unwrap_err(), "nei");
}

#[test]
fn kupongskjema() {
    let k = tolk_kupong(" 2026-07-11 ", Spill::Lotto, "3 7,11-16 18 24 30", "5", "25,50", "tull").unwrap();
    assert_eq!(k.hovedtall, vec![3, 7, 11, 16, 18, 24, 30]);
    assert_eq!(k.ekstra, vec![5]);
    assert_eq!(k.innsats, 2_550_000_000);
    assert_eq!(k.gevinst, 0);
    assert_eq!(kupong_tall(&k), "3 7 11 16 18 24 30  + 5");
    assert_eq!(treff(&k.hovedtall, &vec![30, 3, 4, 4]), 2);
    assert_eq!(treff(&k.ekstra, &vec![]), 0);
    let en = vec![k];
    assert_eq!(totaler(&en), (2_550_000_000, 0, -2_550_000_000));
    assert!(tapsnote(&en).unwrap().starts_with("Akkurat som matematikken forutsier"));
    assert!(tapsnote(&vec![]).is_none());
    let vant = tolk_kupong("2026-07-11", Spill::Lotto, "1 2 3 4 5 6 7", "", "25", "25").unwrap();
    assert_eq!(kupong_tall(&vant), "1 2 3 4 5 6 7");
    assert!(tapsnote(&vec![vant]).is_none());
    let e = tolk_kupong("i går", Spill::Lotto, "", "", "", "").unwrap_err();
    assert_eq!(feil_tekst(&e, Spill::Lotto), "Ugyldig dato — bruk ÅÅÅÅ-MM-DD");
    let f = tolk_kupong("2026-07-11", Spill::Lotto, "1 2 3", "", "", "").unwrap_err();
    assert_eq!(feil_tekst(&f, Spill::Lotto), "Lotto skal ha 7 hovedtall (du skrev 3)");
    assert_eq!(resultat_tekst(3, 0, None), "3 hovedtreff — ingen premie");
    assert_eq!(resultat_tekst(7, 1, Some("1. premie")), "✓ 7 hovedtreff + 1 ekstra — GEVINST: 1. premie");
}

#[test]
fn aar_utenfor_fire_siffer_leses_tilbake() {
    let l: Vec<Trekning> = [dato(-1, 12, 31), dato(0, 1, 1), dato(9999, 12, 31), dato(10_000, 1, 1)]
        .into_iter()
        .map(|d| trekning(d, vec![1, 2, 3, 4, 5, 6, 7], vec![8]))
        .collect();
    let fil = skriv_csv(&l);
    assert!(fil.contains("-0001-12-31;") && fil.contains("+10000-01-01;"));
    assert_eq!(les_csv(&fil), l);
    assert_eq!(oppdater_csv(Some(&fil), &l), (fil, 4));
}

#[test]
fn tall_med_blanke_rundt() {
    let les = |s: &str| tall_liste(&s.chars().collect::<Vec<char>>());
    assert_eq!(les(" 7,3 ,\t255,0"), vec![7, 3, 255, 0]);
    assert_eq!(les("1,x,256,,-2,9"), vec![1, 9]);
    assert!(les("").is_empty());
}

#[test]
fn objektet_rundt_et_sted() {
    let om = |s: &str, midt: usize| {
        objekt_rundt(&s.chars().collect::<Vec<char>>(), midt).map(|o| o.into_iter().collect::<String>())
    };
    assert_eq!(om(r#"x{"a":"}","d":1}y"#, 10).unwrap(), r#"{"a":"}","d":1}"#);
    assert_eq!(om(r#"{"a":"{","b":{"d":1}}"#, 14).unwrap(), r#"{"d":1}"#);
    assert_eq!(om(r#"{"a":"d"}"#, 6).unwrap(), r#"{"a":"d"}"#);
    assert_eq!(om(r#"{"a":1} d"#, 8), None);
}

#[test]
fn skjermede_anforselstegn_gir_samme_trekninger() {
    let html = r#"<p>{"drawDate":"2026-07-11","winningNumbers":[7,3,11,16,18,24,30]}</p>
        {"drawDate":"2026-07-04","winningNumbers":[1,2,3,4,5,6,7,8]}"#;
    let l = trekk_ut_innbakte_trekninger(html, Spill::Lotto);
    assert_eq!(l.len(), 2);
    assert_eq!((l[0].dato, l[0].hovedtall.len()), (dato(2026, 7, 4), 7));
    assert_eq!(l[1].hovedtall, vec![3, 7, 11, 16, 18, 24, 30]);
    assert_eq!(trekk_ut_innbakte_trekninger(&html.replace('"', "\\\""), Spill::Lotto), l);
}

#[test]
fn odelagte_linjer_telles() {
    let fil = "dato;hovedtall;ekstra\n2026-07-04;1,2,3;4\n\ntull\n2026-13-01;1;2\n2026-07-11;x;4\n  \n";
    assert_eq!(les_csv(fil).len(), 1);
    assert_eq!(tell_hoppet(fil), 3);
    assert_eq!(tell_hoppet(""), 0);
}
