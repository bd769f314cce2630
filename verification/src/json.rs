//! JSON documents.
use vstd::prelude::*;

use crate::belop;
use crate::text;

verus! {

/// The contents of a JSON document, for use in contracts. A number is either
/// whole (`Hel`) or a decimal fraction (`Des`), which is kept as its digits.
pub enum JsonView {
    Null,
    Bool(bool),
    Hel(int),
    Des(Seq<char>),
    Str(Seq<char>),
    Arr(Seq<JsonView>),
    Obj(Seq<(Seq<char>, JsonView)>),
}

/// A JSON document. The fields of an object stand in the order of their names.
#[derive(Debug)]
pub enum Json {
    Null,
    Bool(bool),
    Hel(i128),
    Des(String),
    Str(String),
    Arr(Vec<Json>),
    Obj(Vec<(String, Json)>),
}

impl Json {
    pub open spec fn view(&self) -> JsonView
        decreases self,
    {
        match self {
            Json::Null => JsonView::Null,
            Json::Bool(b) => JsonView::Bool(*b),
            Json::Hel(n) => JsonView::Hel(*n as int),
            Json::Des(s) => JsonView::Des(s@),
            Json::Str(s) => JsonView::Str(s@),
            Json::Arr(v) => JsonView::Arr(
                Seq::new(
                    v@.len(),
                    |i: int|
                        if 0 <= i < v@.len() {
                            v@[i].view()
                        } else {
                            JsonView::Null
                        },
                ),
            ),
            Json::Obj(v) => JsonView::Obj(
                Seq::new(
                    v@.len(),
                    |i: int|
                        if 0 <= i < v@.len() {
                            (v@[i].0@, v@[i].1.view())
                        } else {
                            (Seq::empty(), JsonView::Null)
                        },
                ),
            ),
        }
    }
}

/// `serde_json::Value`, a document as the parser hands it out.
#[verifier::external_type_specification]
#[verifier::external_body]
pub struct ExValue(serde_json::Value);

/// The contents of a `serde_json::Value`.
pub uninterp spec fn innhold(v: serde_json::Value) -> JsonView;

/// The document that a text is, if it is one.
pub uninterp spec fn json_lest(tekst: Seq<char>) -> Option<JsonView>;

/// `serde_json::from_str`: whether a text is a JSON document, and which, is a
/// function of the text.
#[verifier::external_body]
fn les_verdi(tekst: &str) -> (r: Option<serde_json::Value>)
    ensures
        (match r {
            Some(v) => json_lest(tekst@) == Some(innhold(v)),
            None => json_lest(tekst@) is None,
        }),
{
    serde_json::from_str::<serde_json::Value>(tekst).ok()
}

/// One level of a document, its children still unread.
pub enum Node<'a> {
    Null,
    Bool(bool),
    Hel(i128),
    Des(String),
    Str(&'a str),
    Arr(&'a Vec<serde_json::Value>),
    Obj(Vec<(&'a str, &'a serde_json::Value)>),
}

/// Whether a level is the top of a document.
pub open spec fn svarer_til(n: Node, v: JsonView) -> bool {
    match n {
        Node::Null => v == JsonView::Null,
        Node::Bool(b) => v == JsonView::Bool(b),
        Node::Hel(i) => v == JsonView::Hel(i as int),
        Node::Des(s) => v == JsonView::Des(s@),
        Node::Str(s) => v == JsonView::Str(s@),
        Node::Arr(a) => {
            &&& v is Arr
            &&& v->Arr_0.len() == a@.len()
            &&& forall|i: int| 0 <= i < a@.len() ==> innhold(#[trigger] a@[i]) == v->Arr_0[i]
        },
        Node::Obj(a) => {
            &&& v is Obj
            &&& v->Obj_0.len() == a@.len()
            &&& forall|i: int|
                0 <= i < a@.len() ==> ((#[trigger] a@[i]).0@, innhold(*a@[i].1)) == v->Obj_0[i]
        },
    }
}

/// The variants of `serde_json::Value`, and what each holds: a whole number by
/// `Number::as_u64` or `Number::as_i64`, another number by its digits as
/// `Number` writes them, the fields of an object in the order in which
/// `Map::iter` goes through them.
#[verifier::external_body]
fn node<'a>(v: &'a serde_json::Value) -> (r: Node<'a>)
    ensures
        svarer_til(r, innhold(*v)),
{
    match v {
        serde_json::Value::Null => Node::Null,
        serde_json::Value::Bool(b) => Node::Bool(*b),
        serde_json::Value::Number(n) => match (n.as_u64(), n.as_i64()) {
            (Some(u), _) => Node::Hel(u as i128),
            (_, Some(i)) => Node::Hel(i as i128),
            _ => Node::Des(n.to_string()),
        },
        serde_json::Value::String(s) => Node::Str(s.as_str()),
        serde_json::Value::Array(a) => Node::Arr(a),
        serde_json::Value::Object(m) => Node::Obj(m.iter().map(|(k, v)| (k.as_str(), v)).collect()),
    }
}

fn bygg(v: &serde_json::Value) -> (r: Json)
    ensures
        r@ == innhold(*v),
    decreases innhold(*v),
{
    match node(v) {
        Node::Null => Json::Null,
        Node::Bool(b) => Json::Bool(b),
        Node::Hel(i) => Json::Hel(i),
        Node::Des(s) => Json::Des(s),
        Node::Str(s) => Json::Str(s.to_owned()),
        Node::Arr(a) => {
            let mut ut: Vec<Json> = Vec::new();
            let mut i: usize = 0;
            while i < a.len()
                invariant
                    i <= a@.len(),
                    ut@.len() == i,
                    innhold(*v) is Arr,
                    innhold(*v)->Arr_0.len() == a@.len(),
                    forall|j: int| 0 <= j < a@.len() ==> innhold(#[trigger] a@[j]) == innhold(*v)->Arr_0[j],
                    forall|j: int| 0 <= j < i ==> (#[trigger] ut@[j])@ == innhold(*v)->Arr_0[j],
                decreases a.len() - i,
            {
                assert(decreases_to!(innhold(*v) => innhold(*v)->Arr_0[i as int]));
                ut.push(bygg(&a[i]));
                i += 1;
            }
            let r: Json = Json::Arr(ut);
            assert(r@->Arr_0 =~= innhold(*v)->Arr_0);
            r
        },
        Node::Obj(a) => {
            let mut ut: Vec<(String, Json)> = Vec::new();
            let mut i: usize = 0;
            while i < a.len()
                invariant
                    i <= a@.len(),
                    ut@.len() == i,
                    innhold(*v) is Obj,
                    innhold(*v)->Obj_0.len() == a@.len(),
                    forall|j: int| 0 <= j < a@.len() ==> ((#[trigger] a@[j]).0@, innhold(*a@[j].1)) == innhold(*v)->Obj_0[j],
                    forall|j: int| 0 <= j < i ==> ((#[trigger] ut@[j]).0@, ut@[j].1@) == innhold(*v)->Obj_0[j],
                decreases a.len() - i,
            {
                assert(decreases_to!(innhold(*v) => innhold(*v)->Obj_0[i as int].1));
                let par: (&str, &serde_json::Value) = a[i];
                ut.push((par.0.to_owned(), bygg(par.1)));
                i += 1;
            }
            let r: Json = Json::Obj(ut);
            assert(r@->Obj_0 =~= innhold(*v)->Obj_0);
            r
        },
    }
}

/// Reads a JSON text.
pub fn les(tekst: &str) -> (r: Option<Json>)
    ensures
        (match r { Some(j) => json_lest(tekst@) == Some(j@), None => json_lest(tekst@) is None }),
{
    match les_verdi(tekst) {
        Some(v) => Some(bygg(&v)),
        None => None,
    }
}

/// A document written out over several lines, where it can be.
pub uninterp spec fn json_pent(v: JsonView) -> Option<Seq<char>>;

/// `serde_json::to_string_pretty`: how a document is laid out is a function of
/// its contents.
#[verifier::external_body]
fn legg_ut(v: &serde_json::Value) -> (r: Option<String>)
    ensures
        (match r {
            Some(s) => json_pent(innhold(*v)) == Some(s@),
            None => json_pent(innhold(*v)) is None,
        }),
{
    serde_json::to_string_pretty(v).ok()
}

/// A text laid out over several lines if it is a document, and as it is if not.
pub open spec fn pent(tekst: Seq<char>) -> Seq<char> {
    match json_lest(tekst) {
        Some(v) => match json_pent(v) {
            Some(s) => s,
            None => tekst,
        },
        None => tekst,
    }
}

pub fn pen_tekst(tekst: &str) -> (r: String)
    ensures
        r@ == pent(tekst@),
{
    match les_verdi(tekst) {
        Some(v) => match legg_ut(&v) {
            Some(s) => s,
            None => tekst.to_owned(),
        },
        None => tekst.to_owned(),
    }
}

// ---------------------------------------------------------------------------
// Writing a document
// ---------------------------------------------------------------------------

/// The fields of an object with one more; a field of the same name gives way,
/// and the names stay in order.
pub open spec fn kart_med(k: Seq<(Seq<char>, JsonView)>, f: (Seq<char>, JsonView)) -> Seq<(Seq<char>, JsonView)>
    decreases k.len(),
{
    if k.len() == 0 || text::before(f.0, k[0].0) {
        seq![f] + k
    } else if k[0].0 == f.0 {
        seq![f] + k.skip(1)
    } else {
        seq![k[0]] + kart_med(k.skip(1), f)
    }
}

/// The object that the fields make, put in one after the other.
pub open spec fn kart_av(l: Seq<(Seq<char>, JsonView)>) -> Seq<(Seq<char>, JsonView)>
    decreases l.len(),
{
    if l.len() == 0 {
        l
    } else {
        kart_med(kart_av(l.drop_last()), l.last())
    }
}

/// One level of a document to be made, its children made already.
pub enum Blad {
    Null,
    Bool(bool),
    Hel(i64),
    Stor(u64),
    Str(String),
    Arr(Vec<serde_json::Value>),
    Obj(Vec<(String, serde_json::Value)>),
}

/// The contents of a level and its children.
pub open spec fn bladinnhold(b: Blad) -> JsonView {
    match b {
        Blad::Null => JsonView::Null,
        Blad::Bool(v) => JsonView::Bool(v),
        Blad::Hel(i) => JsonView::Hel(i as int),
        Blad::Stor(i) => JsonView::Hel(i as int),
        Blad::Str(s) => JsonView::Str(s@),
        Blad::Arr(a) => JsonView::Arr(Seq::new(a@.len(), |i: int| innhold(a@[i]))),
        Blad::Obj(o) => JsonView::Obj(kart_av(Seq::new(o@.len(), |i: int| (o@[i].0@, innhold(o@[i].1))))),
    }
}

/// The variants of `serde_json::Value` made from what they hold. An object is
/// made by `Map::from_iter`, which keeps its keys in order and, of two fields
/// with the same key, the later.
#[verifier::external_body]
fn lag(b: Blad) -> (r: serde_json::Value)
    ensures
        innhold(r) == bladinnhold(b),
{
    match b {
        Blad::Null => serde_json::Value::Null,
        Blad::Bool(v) => serde_json::Value::Bool(v),
        Blad::Hel(i) => serde_json::Value::from(i),
        Blad::Stor(i) => serde_json::Value::from(i),
        Blad::Str(s) => serde_json::Value::String(s),
        Blad::Arr(a) => serde_json::Value::Array(a),
        Blad::Obj(o) => serde_json::Value::Object(serde_json::Map::from_iter(o)),
    }
}

/// A document on one line.
pub uninterp spec fn json_kompakt(v: JsonView) -> Seq<char>;

/// `serde_json::Value::to_string`: the document on one line is a function of
/// its contents.
#[verifier::external_body]
fn kompakt(v: &serde_json::Value) -> (r: String)
    ensures
        r@ == json_kompakt(innhold(*v)),
{
    v.to_string()
}

/// The document that stands when `j` has been handed over to be written: its
/// numbers with decimals as their digits are read, its fields in order.
pub open spec fn lagt(j: JsonView) -> JsonView
    decreases j,
{
    match j {
        JsonView::Hel(i) => if i64::MIN <= i <= u64::MAX {
            j
        } else {
            JsonView::Null
        },
        JsonView::Des(s) => match json_lest(s) {
            Some(v) => v,
            None => JsonView::Null,
        },
        JsonView::Arr(a) => JsonView::Arr(
            Seq::new(
                a.len(),
                |i: int|
                    if 0 <= i < a.len() {
                        lagt(a[i])
                    } else {
                        JsonView::Null
                    },
            ),
        ),
        JsonView::Obj(o) => JsonView::Obj(kart_av(lagte(o))),
        _ => j,
    }
}

/// The fields of an object with what stands of them.
pub open spec fn lagte(o: Seq<(Seq<char>, JsonView)>) -> Seq<(Seq<char>, JsonView)>
    decreases o,
{
    Seq::new(
        o.len(),
        |i: int|
            if 0 <= i < o.len() {
                (o[i].0, lagt(o[i].1))
            } else {
                (Seq::empty(), JsonView::Null)
            },
    )
}

fn overlever(j: &Json) -> (r: serde_json::Value)
    ensures
        innhold(r) == lagt(j@),
    decreases j@,
{
    match j {
        Json::Null => lag(Blad::Null),
        Json::Bool(b) => lag(Blad::Bool(*b)),
        Json::Hel(i) => if *i >= i64::MIN as i128 && *i <= i64::MAX as i128 {
            lag(Blad::Hel(*i as i64))
        } else if *i > 0 && *i <= u64::MAX as i128 {
            lag(Blad::Stor(*i as u64))
        } else {
            lag(Blad::Null)
        },
        Json::Des(s) => match les_verdi(s.as_str()) {
            Some(v) => v,
            None => lag(Blad::Null),
        },
        Json::Str(s) => lag(Blad::Str(text::copy_text(s))),
        Json::Arr(a) => {
            let mut ut: Vec<serde_json::Value> = Vec::new();
            let mut i: usize = 0;
            while i < a.len()
                invariant
                    i <= a@.len(),
                    ut@.len() == i,
                    *j == Json::Arr(*a),
                    forall|k: int| 0 <= k < i ==> innhold(#[trigger] ut@[k]) == lagt(a@[k]@),
                decreases a.len() - i,
            {
                assert(decreases_to!(j@ => j@->Arr_0[i as int]));
                ut.push(overlever(&a[i]));
                i += 1;
            }
            let b: Blad = Blad::Arr(ut);
            assert(bladinnhold(b)->Arr_0 =~= lagt(j@)->Arr_0);
            lag(b)
        },
        Json::Obj(o) => {
            let mut ut: Vec<(String, serde_json::Value)> = Vec::new();
            let mut i: usize = 0;
            while i < o.len()
                invariant
                    i <= o@.len(),
                    ut@.len() == i,
                    *j == Json::Obj(*o),
                    forall|k: int| 0 <= k < i ==> (#[trigger] ut@[k]).0@ == o@[k].0@ && innhold(ut@[k].1) == lagt(
                        o@[k].1@,
                    ),
                decreases o.len() - i,
            {
                assert(decreases_to!(j@ => j@->Obj_0[i as int].1));
                let navn: String = text::copy_text(&o[i].0);
                ut.push((navn, overlever(&o[i].1)));
                i += 1;
            }
            let ghost par = Seq::new(ut@.len(), |k: int| (ut@[k].0@, innhold(ut@[k].1)));
            assert(par =~= lagte(j@->Obj_0));
            let b: Blad = Blad::Obj(ut);
            assert(bladinnhold(b) == JsonView::Obj(kart_av(par)));
            lag(b)
        },
    }
}

/// Writes a document on one line.
pub fn skriv(j: &Json) -> (r: String)
    ensures
        r@ == json_kompakt(lagt(j@)),
{
    kompakt(&overlever(j))
}

/// A document as its debug form.
pub uninterp spec fn json_feilsok(v: JsonView) -> Seq<char>;

/// `serde_json::Value` written with `{:?}`: the debug form is a function of the
/// contents.
#[verifier::external_body]
fn feilsok(v: &serde_json::Value) -> (r: String)
    ensures
        r@ == json_feilsok(innhold(*v)),
{
    format!("{v:?}")
}

/// Writes the debug form of a document.
pub fn skriv_feilsok(j: &Json) -> (r: String)
    ensures
        r@ == json_feilsok(lagt(j@)),
{
    feilsok(&overlever(j))
}

// ---------------------------------------------------------------------------
// Looking into a document
// ---------------------------------------------------------------------------

/// From position `i` on: the value of the first field of that name.
pub open spec fn felt_fra(kart: Seq<(Seq<char>, JsonView)>, navn: Seq<char>, i: int) -> Option<JsonView>
    decreases kart.len() - i,
{
    if i < 0 || i >= kart.len() {
        None
    } else if kart[i].0 == navn {
        Some(kart[i].1)
    } else {
        felt_fra(kart, navn, i + 1)
    }
}

impl JsonView {
    /// The field of that name.
    pub open spec fn felt(self, navn: Seq<char>) -> Option<JsonView> {
        match self {
            JsonView::Obj(kart) => felt_fra(kart, navn, 0),
            _ => None,
        }
    }

    /// The text of the field of that name.
    pub open spec fn felt_tekst(self, navn: Seq<char>) -> Option<Seq<char>> {
        match self.felt(navn) {
            Some(v) => v.som_tekst(),
            None => None,
        }
    }

    /// The amount of the field of that name.
    pub open spec fn felt_belop(self, navn: Seq<char>) -> Option<int> {
        match self.felt(navn) {
            Some(v) => v.som_belop(),
            None => None,
        }
    }

    /// The elements; none where this is no list.
    pub open spec fn elementer(self) -> Seq<JsonView> {
        match self {
            JsonView::Arr(l) => l,
            _ => Seq::empty(),
        }
    }

    /// The elements of the field of that name; none where it is no list.
    pub open spec fn felt_liste(self, navn: Seq<char>) -> Seq<JsonView> {
        match self.felt(navn) {
            Some(v) => v.elementer(),
            None => Seq::empty(),
        }
    }

    /// The element at a position.
    pub open spec fn element(self, i: int) -> Option<JsonView> {
        match self {
            JsonView::Arr(l) => if 0 <= i < l.len() {
                Some(l[i])
            } else {
                None
            },
            _ => None,
        }
    }

    /// What the step `0` of a path leads to: the first element of a list, or the
    /// field of that name.
    pub open spec fn ledd_null(self) -> Option<JsonView> {
        match self {
            JsonView::Arr(_) => self.element(0),
            _ => self.felt("0"@),
        }
    }

    pub open spec fn som_i64(self) -> Option<int> {
        match self {
            JsonView::Hel(n) => if i64::MIN <= n <= i64::MAX {
                Some(n)
            } else {
                None
            },
            _ => None,
        }
    }

    pub open spec fn som_u64(self) -> Option<int> {
        match self {
            JsonView::Hel(n) => if 0 <= n <= u64::MAX {
                Some(n)
            } else {
                None
            },
            _ => None,
        }
    }

    /// The number as an amount, in hundred-millionths; none where it is no
    /// number or too large.
    pub open spec fn som_belop(self) -> Option<int> {
        match self {
            JsonView::Hel(n) => if i64::MIN <= n * 100_000_000 <= i64::MAX {
                Some(n * 100_000_000)
            } else {
                None
            },
            JsonView::Des(s) => belop::belop_av(s),
            _ => None,
        }
    }

    pub open spec fn som_bool(self) -> Option<bool> {
        match self {
            JsonView::Bool(b) => Some(b),
            _ => None,
        }
    }

    pub open spec fn som_tekst(self) -> Option<Seq<char>> {
        match self {
            JsonView::Str(s) => Some(s),
            _ => None,
        }
    }
}

pub open spec fn syner(l: Seq<Json>) -> Seq<JsonView> {
    Seq::new(l.len(), |i: int| l[i]@)
}

/// The names and contents of fields.
pub open spec fn par(l: Seq<(String, Json)>) -> Seq<(Seq<char>, JsonView)> {
    Seq::new(l.len(), |i: int| (l[i].0@, l[i].1@))
}

/// An object with fields.
pub fn objekt(l: Vec<(String, Json)>) -> (r: Json)
    ensures
        r@ == JsonView::Obj(par(l@)),
{
    let r: Json = Json::Obj(l);
    assert(r@->Obj_0 =~= par(l@));
    r
}

/// A list of elements.
pub fn liste_av(l: Vec<Json>) -> (r: Json)
    ensures
        r@ == JsonView::Arr(syner(l@)),
{
    let r: Json = Json::Arr(l);
    assert(r@->Arr_0 =~= syner(l@));
    r
}

/// A text.
pub fn tekst(s: &str) -> (r: Json)
    ensures
        r@ == JsonView::Str(s@),
{
    Json::Str(s.to_owned())
}

/// A field of an object.
pub fn felt_av(navn: &str, v: Json) -> (r: (String, Json))
    ensures
        r.0@ == navn@,
        r.1 == v,
{
    (navn.to_owned(), v)
}

/// The contents of a value that may be missing.
pub open spec fn syn(o: Option<&Json>) -> Option<JsonView> {
    match o {
        Some(j) => Some(j@),
        None => None,
    }
}

pub open spec fn tekst_syn(o: Option<&str>) -> Option<Seq<char>> {
    match o {
        Some(s) => Some(s@),
        None => None,
    }
}

impl Json {
    /// The field of that name.
    pub fn felt(&self, navn: &str) -> (r: Option<&Json>)
        ensures
            syn(r) == self@.felt(navn@),
    {
        match self {
            Json::Obj(kart) => {
                let ghost k = self@->Obj_0;
                let mut i: usize = 0;
                while i < kart.len()
                    invariant
                        i <= kart@.len(),
                        self@ == JsonView::Obj(k),
                        k.len() == kart@.len(),
                        forall|j: int|
                            0 <= j < kart@.len() ==> #[trigger] k[j] == (kart@[j].0@, kart@[j].1@),
                        felt_fra(k, navn@, 0) == felt_fra(k, navn@, i as int),
                    decreases kart.len() - i,
                {
                    assert(k[i as int] == (kart@[i as int].0@, kart@[i as int].1@));
                    if text::same(kart[i].0.as_str(), navn) {
                        return Some(&kart[i].1);
                    }
                    i += 1;
                }
                None
            },
            _ => None,
        }
    }

    /// The text of the field of that name.
    pub fn felt_tekst(&self, navn: &str) -> (r: Option<&str>)
        ensures
            tekst_syn(r) == self@.felt_tekst(navn@),
    {
        match self.felt(navn) {
            Some(v) => v.som_tekst(),
            None => None,
        }
    }

    /// The amount of the field of that name.
    pub fn felt_belop(&self, navn: &str) -> (r: Option<i64>)
        ensures
            r is Some == self@.felt_belop(navn@) is Some,
            r matches Some(v) ==> self@.felt_belop(navn@) == Some(v as int),
    {
        match self.felt(navn) {
            Some(v) => v.som_belop(),
            None => None,
        }
    }

    /// The elements; none where this is no list.
    pub fn elementer(&self) -> (r: &[Json])
        ensures
            syner(r@) == self@.elementer(),
    {
        match self {
            Json::Arr(l) => {
                assert(syner(l@) =~= self@->Arr_0);
                l.as_slice()
            },
            _ => {
                let tom: &[Json] = &[];
                assert(syner(tom@) =~= Seq::<JsonView>::empty());
                tom
            },
        }
    }

    /// The elements of the field of that name; none where it is no list.
    pub fn felt_liste(&self, navn: &str) -> (r: &[Json])
        ensures
            syner(r@) == self@.felt_liste(navn@),
    {
        match self.felt(navn) {
            Some(v) => v.elementer(),
            None => {
                let tom: &[Json] = &[];
                assert(syner(tom@) =~= Seq::<JsonView>::empty());
                tom
            },
        }
    }

    /// The elements, where this is a list.
    pub fn liste(&self) -> (r: Option<&Vec<Json>>)
        ensures
            r is Some == self@ is Arr,
            r matches Some(l) ==> l@.len() == self@->Arr_0.len() && (forall|i: int|
                0 <= i < l@.len() ==> (#[trigger] l@[i])@ == self@->Arr_0[i]),
    {
        match self {
            Json::Arr(l) => Some(l),
            _ => None,
        }
    }

    pub fn element(&self, i: usize) -> (r: Option<&Json>)
        ensures
            syn(r) == self@.element(i as int),
    {
        match self {
            Json::Arr(l) => if i < l.len() {
                Some(&l[i])
            } else {
                None
            },
            _ => None,
        }
    }

    /// What the step `0` of a path leads to.
    pub fn ledd_null(&self) -> (r: Option<&Json>)
        ensures
            syn(r) == self@.ledd_null(),
    {
        match self {
            Json::Arr(_) => self.element(0),
            _ => self.felt("0"),
        }
    }

    pub fn som_i64(&self) -> (r: Option<i64>)
        ensures
            r is Some == self@.som_i64() is Some,
            r is Some ==> self@.som_i64() == Some(r->0 as int),
    {
        match self {
            Json::Hel(n) => if -0x8000_0000_0000_0000i128 <= *n && *n <= 0x7fff_ffff_ffff_ffffi128 {
                Some(*n as i64)
            } else {
                None
            },
            _ => None,
        }
    }

    pub fn som_u64(&self) -> (r: Option<u64>)
        ensures
            r is Some == self@.som_u64() is Some,
            r is Some ==> self@.som_u64() == Some(r->0 as int),
    {
        match self {
            Json::Hel(n) => if 0i128 <= *n && *n <= 0xffff_ffff_ffff_ffffi128 {
                Some(*n as u64)
            } else {
                None
            },
            _ => None,
        }
    }

    pub fn som_belop(&self) -> (r: Option<i64>)
        ensures
            r is Some == self@.som_belop() is Some,
            r matches Some(v) ==> self@.som_belop() == Some(v as int),
    {
        match self {
            Json::Hel(n) => if -92_233_720_368i128 <= *n && *n <= 92_233_720_368i128 {
                Some((*n * 100_000_000) as i64)
            } else {
                None
            },
            Json::Des(s) => belop::fra_tekst(s.as_str()),
            _ => None,
        }
    }

    pub fn som_bool(&self) -> (r: Option<bool>)
        ensures
            r == self@.som_bool(),
    {
        match self {
            Json::Bool(b) => Some(*b),
            _ => None,
        }
    }

    pub fn som_tekst(&self) -> (r: Option<&str>)
        ensures
            tekst_syn(r) == self@.som_tekst(),
    {
        match self {
            Json::Str(s) => Some(s.as_str()),
            _ => None,
        }
    }
}

// ---------------------------------------------------------------------------
// Objects in a text
// ---------------------------------------------------------------------------

/// Going on from position `i`, `dybde` objects deep, in a string or not, right
/// behind a backslash or not: the brace that closes the outermost object.
pub open spec fn lukker(s: Seq<char>, i: int, dybde: int, i_streng: bool, escape: bool) -> Option<int>
    decreases s.len() - i,
{
    if i < 0 || i >= s.len() {
        None
    } else if i_streng {
        if escape {
            lukker(s, i + 1, dybde, true, false)
        } else if s[i] == '\\' {
            lukker(s, i + 1, dybde, true, true)
        } else {
            lukker(s, i + 1, dybde, s[i] != '"', false)
        }
    } else if s[i] == '"' {
        lukker(s, i + 1, dybde, true, escape)
    } else if s[i] == '{' {
        lukker(s, i + 1, dybde + 1, false, escape)
    } else if s[i] == '}' {
        if dybde == 1 {
            Some(i)
        } else {
            lukker(s, i + 1, dybde - 1, false, escape)
        }
    } else {
        lukker(s, i + 1, dybde, false, escape)
    }
}

/// The brace that closes the object that begins at `start`.
pub fn finn_lukker(s: &[char], start: usize) -> (r: Option<usize>)
    requires
        start < s@.len(),
        s@[start as int] == '{',
    ensures
        r is Some == lukker(s@, start as int, 0, false, false) is Some,
        r matches Some(b) ==> lukker(s@, start as int, 0, false, false) == Some(b as int) && start < b
            < s@.len(),
{
    let mut i: usize = start;
    let mut dybde: usize = 0;
    let mut i_streng: bool = false;
    let mut escape: bool = false;
    while i < s.len()
        invariant
            start <= i <= s@.len(),
            start < s@.len(),
            s@[start as int] == '{',
            dybde <= i - start,
            i == start ==> dybde == 0 && !i_streng,
            i > start ==> dybde >= 1,
            !i_streng ==> !escape,
            lukker(s@, start as int, 0, false, false) == lukker(
                s@,
                i as int,
                dybde as int,
                i_streng,
                escape,
            ),
        decreases s.len() - i,
    {
        let c: char = s[i];
        if i_streng {
            if escape {
                escape = false;
            } else if c == '\\' {
                escape = true;
            } else if c == '"' {
                i_streng = false;
            }
        } else if c == '"' {
            i_streng = true;
        } else if c == '{' {
            dybde += 1;
        } else if c == '}' {
            if dybde == 1 {
                return Some(i);
            }
            dybde -= 1;
        }
        i += 1;
    }
    None
}

pub proof fn lemma_lukker(s: Seq<char>, i: int, dybde: int, i_streng: bool, escape: bool)
    requires
        0 <= i,
    ensures
        lukker(s, i, dybde, i_streng, escape) matches Some(b) ==> i <= b < s.len() && s[b] == '}',
    decreases s.len() - i,
{
    if i < s.len() {
        lemma_lukker(s, i + 1, dybde, true, false);
        lemma_lukker(s, i + 1, dybde, true, true);
        lemma_lukker(s, i + 1, dybde, s[i] != '"', false);
        lemma_lukker(s, i + 1, dybde, true, escape);
        lemma_lukker(s, i + 1, dybde + 1, false, escape);
        lemma_lukker(s, i + 1, dybde - 1, false, escape);
        lemma_lukker(s, i + 1, dybde, false, escape);
    }
}

/// The brace that closes an object does not depend on what stands round it.
pub proof fn lemma_lukker_inni(
    for_: Seq<char>,
    s: Seq<char>,
    etter: Seq<char>,
    i: int,
    dybde: int,
    i_streng: bool,
    escape: bool,
)
    requires
        0 <= i,
        lukker(s, i, dybde, i_streng, escape) is Some,
    ensures
        lukker(for_ + s + etter, for_.len() + i, dybde, i_streng, escape) == Some(
            for_.len() + lukker(s, i, dybde, i_streng, escape)->0,
        ),
    decreases s.len() - i,
{
    let hele = for_ + s + etter;
    let k = for_.len() + i;
    assert(i < s.len());
    assert(hele[k] == s[i]);
    if i_streng {
        if escape {
            lemma_lukker_inni(for_, s, etter, i + 1, dybde, true, false);
        } else if s[i] == '\\' {
            lemma_lukker_inni(for_, s, etter, i + 1, dybde, true, true);
        } else {
            lemma_lukker_inni(for_, s, etter, i + 1, dybde, s[i] != '"', false);
        }
    } else if s[i] == '"' {
        lemma_lukker_inni(for_, s, etter, i + 1, dybde, true, escape);
    } else if s[i] == '{' {
        lemma_lukker_inni(for_, s, etter, i + 1, dybde + 1, false, escape);
    } else if s[i] == '}' {
        if dybde != 1 {
            lemma_lukker_inni(for_, s, etter, i + 1, dybde - 1, false, escape);
        }
    } else {
        lemma_lukker_inni(for_, s, etter, i + 1, dybde, false, escape);
    }
}

}
