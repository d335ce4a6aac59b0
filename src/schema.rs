use std::collections::BTreeMap;
use vstd::prelude::*;

verus! {

/// A record as the contracts see it: its name and its secret value.
pub type RecordView = (Seq<char>, Seq<char>);

/// The lower-case hexadecimal digit of `d` (for `d < 16`).
pub open spec fn hex_digit(d: int) -> char {
    if d == 0 { '0' } else if d == 1 { '1' } else if d == 2 { '2' } else if d == 3 { '3' }
    else if d == 4 { '4' } else if d == 5 { '5' } else if d == 6 { '6' } else if d == 7 { '7' }
    else if d == 8 { '8' } else if d == 9 { '9' } else if d == 10 { 'a' } else if d == 11 { 'b' }
    else if d == 12 { 'c' } else if d == 13 { 'd' } else if d == 14 { 'e' } else { 'f' }
}

/// How one character is written inside a quoted string of the payload: quote and
/// backslash escaped, the usual short escapes for backspace, form feed, newline,
/// carriage return and tab, `\u00XX` for the other control characters, and every
/// other character as itself.
pub open spec fn escape_char(c: char) -> Seq<char> {
    if c == '"' {
        seq!['\\', '"']
    } else if c == '\\' {
        seq!['\\', '\\']
    } else if c == '\u{8}' {
        seq!['\\', 'b']
    } else if c == '\u{c}' {
        seq!['\\', 'f']
    } else if c == '\n' {
        seq!['\\', 'n']
    } else if c == '\r' {
        seq!['\\', 'r']
    } else if c == '\t' {
        seq!['\\', 't']
    } else if (c as u32) < 0x20 {
        seq!['\\', 'u', '0', '0', hex_digit((c as u32) as int / 16), hex_digit((c as u32) as int % 16)]
    } else {
        seq![c]
    }
}

/// The escaped form of a whole string.
pub open spec fn escape(s: Seq<char>) -> Seq<char>
    decreases s.len(),
{
    if s.len() == 0 {
        Seq::empty()
    } else {
        escape_char(s[0]) + escape(s.drop_first())
    }
}

/// A string as a quoted literal of the payload.
pub open spec fn quoted(s: Seq<char>) -> Seq<char> {
    seq!['"'] + escape(s) + seq!['"']
}

/// The text `{"name":` that opens a record.
pub open spec fn name_open() -> Seq<char> {
    seq!['{', '"', 'n', 'a', 'm', 'e', '"', ':']
}

/// The text `,"password":` between a record's name and its value.
pub open spec fn value_open() -> Seq<char> {
    seq![',', '"', 'p', 'a', 's', 's', 'w', 'o', 'r', 'd', '"', ':']
}

/// The text `{"passwords":[` that opens the payload.
pub open spec fn payload_open() -> Seq<char> {
    seq!['{', '"', 'p', 'a', 's', 's', 'w', 'o', 'r', 'd', 's', '"', ':', '[']
}

/// The text `]}` that closes the payload.
pub open spec fn payload_close() -> Seq<char> {
    seq![']', '}']
}

/// One record as an object: `{"name":"...","password":"..."}`.
pub open spec fn record_text(r: RecordView) -> Seq<char> {
    name_open() + quoted(r.0) + value_open() + quoted(r.1) + seq!['}']
}

/// Each record preceded by a comma.
pub open spec fn records_tail(rs: Seq<RecordView>) -> Seq<char>
    decreases rs.len(),
{
    if rs.len() == 0 {
        Seq::empty()
    } else {
        seq![','] + record_text(rs[0]) + records_tail(rs.drop_first())
    }
}

/// The records separated by commas.
pub open spec fn records_text(rs: Seq<RecordView>) -> Seq<char> {
    if rs.len() == 0 {
        Seq::empty()
    } else {
        record_text(rs[0]) + records_tail(rs.drop_first())
    }
}

/// The canonical payload text of a record collection:
/// `{"passwords":[{"name":"...","password":"..."},...]}` with no white space.
pub open spec fn payload_text(rs: Seq<RecordView>) -> Seq<char> {
    payload_open() + records_text(rs) + payload_close()
}

/// A record collection as the vault holds it: every name and value non-empty, and
/// no two records with the same name.
pub open spec fn valid_records(rs: Seq<RecordView>) -> bool {
    &&& forall|i: int| 0 <= i < rs.len() ==> (#[trigger] rs[i]).0.len() > 0 && rs[i].1.len() > 0
    &&& forall|i: int, j: int|
        0 <= i < j < rs.len() ==> (#[trigger] rs[i]).0 != (#[trigger] rs[j]).0
}

proof fn lemma_escape_append(a: Seq<char>, b: Seq<char>)
    ensures
        escape(a + b) == escape(a) + escape(b),
    decreases a.len(),
{
    if a.len() == 0 {
        assert(a + b =~= b);
        assert(escape(a) + escape(b) =~= escape(b));
    } else {
        assert((a + b).drop_first() =~= a.drop_first() + b);
        lemma_escape_append(a.drop_first(), b);
        assert((a + b)[0] == a[0]);
        assert(escape(a + b) =~= escape_char(a[0]) + (escape(a.drop_first()) + escape(b)));
        assert(escape(a) + escape(b) =~= escape_char(a[0]) + (escape(a.drop_first()) + escape(b)));
    }
}

proof fn lemma_escape_push(s: Seq<char>, c: char)
    ensures
        escape(s.push(c)) == escape(s) + escape_char(c),
{
    lemma_escape_append(s, seq![c]);
    assert(s.push(c) =~= s + seq![c]);
    let one = seq![c];
    assert(one.drop_first() =~= Seq::<char>::empty());
    assert(one[0] == c);
    assert(escape(one) == escape_char(one[0]) + escape(one.drop_first()));
    assert(escape(one) =~= escape_char(c));
}

/// A named secret.
pub struct Password {
    pub name: String,
    pub password: String,
}

impl View for Password {
    type V = RecordView;

    open spec fn view(&self) -> RecordView {
        (self.name@, self.password@)
    }
}

impl Password {
    pub fn new(name: String, password: String) -> (r: Password)
        ensures
            r.name@ == name@,
            r.password@ == password@,
    {
        Password { name: name, password: password }
    }

    /// A copy of this record.
    pub fn duplicate(&self) -> (r: Password)
        ensures
            r@ == self@,
    {
        Password { name: self.name.clone(), password: self.password.clone() }
    }
}

/// The records of a sequence of `Password` values.
pub open spec fn views(ps: Seq<Password>) -> Seq<RecordView> {
    ps.map_values(|p: Password| p@)
}

/// The record collection, in insertion order.
pub struct Schema {
    pub passwords: Vec<Password>,
}

impl Schema {
    pub open spec fn records(&self) -> Seq<RecordView> {
        views(self.passwords@)
    }

    pub fn new() -> (r: Schema)
        ensures
            r.records() == Seq::<RecordView>::empty(),
    {
        let r = Schema { passwords: Vec::new() };
        assert(r.records() =~= Seq::<RecordView>::empty());
        r
    }

    /// The canonical payload text of the collection.
    pub fn to_text(&self) -> (r: String)
        ensures
            r@ == payload_text(self.records()),
    {
        let mut out = String::new();
        push_chars(&mut out, &payload_open_chars());
        let n = self.passwords.len();
        let mut i: usize = 0;
        while i < n
            invariant
                n == self.passwords.len(),
                i <= n,
                out@ == payload_open() + records_text(self.records().take(i as int)),
            decreases n - i,
        {
            let ghost before = self.records().take(i as int);
            if i > 0 {
                push_char(&mut out, ',');
            }
            write_record(&mut out, &self.passwords[i]);
            proof {
                let rs = self.records();
                assert(rs.take(i + 1) =~= before.push(rs[i as int]));
                lemma_records_text_push(before, rs[i as int]);
            }
            i = i + 1;
        }
        push_chars(&mut out, &payload_close_chars());
        assert(self.records().take(n as int) =~= self.records());
        out
    }
}

proof fn lemma_records_tail_append(a: Seq<RecordView>, b: Seq<RecordView>)
    ensures
        records_tail(a + b) == records_tail(a) + records_tail(b),
    decreases a.len(),
{
    if a.len() == 0 {
        assert(a + b =~= b);
        assert(records_tail(a) + records_tail(b) =~= records_tail(b));
    } else {
        assert((a + b).drop_first() =~= a.drop_first() + b);
        lemma_records_tail_append(a.drop_first(), b);
        assert((a + b)[0] == a[0]);
        assert(records_tail(a + b) =~= seq![','] + record_text(a[0]) + (records_tail(
            a.drop_first(),
        ) + records_tail(b)));
        assert(records_tail(a) + records_tail(b) =~= seq![','] + record_text(a[0]) + (
        records_tail(a.drop_first()) + records_tail(b)));
    }
}

proof fn lemma_records_tail_one(r: RecordView)
    ensures
        records_tail(seq![r]) == seq![','] + record_text(r),
{
    let one = seq![r];
    assert(one.drop_first() =~= Seq::<RecordView>::empty());
    assert(one[0] == r);
    assert(records_tail(one) == seq![','] + record_text(one[0]) + records_tail(one.drop_first()));
    assert(records_tail(one) =~= seq![','] + record_text(r));
}

/// Appending a record appends its text, after a comma unless it is the first.
proof fn lemma_records_text_push(rs: Seq<RecordView>, r: RecordView)
    ensures
        records_text(rs.push(r)) == records_text(rs) + (if rs.len() == 0 {
            Seq::empty()
        } else {
            seq![',']
        }) + record_text(r),
{
    let p = rs.push(r);
    if rs.len() == 0 {
        assert(p.drop_first() =~= Seq::<RecordView>::empty());
        assert(p[0] == r);
        assert(records_text(p) =~= record_text(r));
        assert(records_text(rs) + Seq::<char>::empty() + record_text(r) =~= record_text(r));
    } else {
        assert(p.drop_first() =~= rs.drop_first() + seq![r]);
        lemma_records_tail_append(rs.drop_first(), seq![r]);
        lemma_records_tail_one(r);
        assert(p[0] == rs[0]);
        assert(records_text(p) =~= records_text(rs) + seq![','] + record_text(r));
    }
}

/// Relies on `String::push`: appends one character.
#[verifier::external_body]
fn push_char(s: &mut String, c: char)
    ensures
        final(s)@ == old(s)@.push(c),
{
    s.push(c);
}

fn push_chars(s: &mut String, cs: &Vec<char>)
    ensures
        final(s)@ == old(s)@ + cs@,
{
    let ghost start = s@;
    let mut i: usize = 0;
    while i < cs.len()
        invariant
            i <= cs.len(),
            s@ == start + cs@.take(i as int),
        decreases cs.len() - i,
    {
        push_char(s, cs[i]);
        assert(cs@.take(i + 1) =~= cs@.take(i as int).push(cs[i as int]));
        i = i + 1;
    }
    assert(cs@.take(cs.len() as int) =~= cs@);
}

fn payload_open_chars() -> (r: Vec<char>)
    ensures
        r@ == payload_open(),
{
    let r = vec!['{', '"', 'p', 'a', 's', 's', 'w', 'o', 'r', 'd', 's', '"', ':', '['];
    assert(r@ =~= payload_open());
    r
}

fn payload_close_chars() -> (r: Vec<char>)
    ensures
        r@ == payload_close(),
{
    let r = vec![']', '}'];
    assert(r@ =~= payload_close());
    r
}

fn name_open_chars() -> (r: Vec<char>)
    ensures
        r@ == name_open(),
{
    let r = vec!['{', '"', 'n', 'a', 'm', 'e', '"', ':'];
    assert(r@ =~= name_open());
    r
}

fn value_open_chars() -> (r: Vec<char>)
    ensures
        r@ == value_open(),
{
    let r = vec![',', '"', 'p', 'a', 's', 's', 'w', 'o', 'r', 'd', '"', ':'];
    assert(r@ =~= value_open());
    r
}

fn hex_char(d: u32) -> (r: char)
    requires
        d < 16,
    ensures
        r == hex_digit(d as int),
{
    if d == 0 { '0' } else if d == 1 { '1' } else if d == 2 { '2' } else if d == 3 { '3' }
    else if d == 4 { '4' } else if d == 5 { '5' } else if d == 6 { '6' } else if d == 7 { '7' }
    else if d == 8 { '8' } else if d == 9 { '9' } else if d == 10 { 'a' } else if d == 11 { 'b' }
    else if d == 12 { 'c' } else if d == 13 { 'd' } else if d == 14 { 'e' } else { 'f' }
}

fn write_escaped_char(out: &mut String, c: char)
    ensures
        final(out)@ == old(out)@ + escape_char(c),
{
    let ghost start = out@;
    if c == '"' || c == '\\' {
        push_char(out, '\\');
        push_char(out, c);
    } else if c == '\u{8}' {
        push_char(out, '\\');
        push_char(out, 'b');
    } else if c == '\u{c}' {
        push_char(out, '\\');
        push_char(out, 'f');
    } else if c == '\n' {
        push_char(out, '\\');
        push_char(out, 'n');
    } else if c == '\r' {
        push_char(out, '\\');
        push_char(out, 'r');
    } else if c == '\t' {
        push_char(out, '\\');
        push_char(out, 't');
    } else if (c as u32) < 0x20 {
        push_char(out, '\\');
        push_char(out, 'u');
        push_char(out, '0');
        push_char(out, '0');
        push_char(out, hex_char(c as u32 / 16));
        push_char(out, hex_char(c as u32 % 16));
    } else {
        push_char(out, c);
    }
    assert(out@ =~= start + escape_char(c));
}

fn write_quoted(out: &mut String, s: &String)
    ensures
        final(out)@ == old(out)@ + quoted(s@),
{
    let ghost start = out@;
    push_char(out, '"');
    let cs = to_chars(s.as_str());
    let mut i: usize = 0;
    while i < cs.len()
        invariant
            i <= cs.len(),
            cs@ == s@,
            out@ == start + seq!['"'] + escape(cs@.take(i as int)),
        decreases cs.len() - i,
    {
        write_escaped_char(out, cs[i]);
        proof {
            assert(cs@.take(i + 1) =~= cs@.take(i as int).push(cs[i as int]));
            lemma_escape_push(cs@.take(i as int), cs[i as int]);
        }
        i = i + 1;
    }
    push_char(out, '"');
    assert(cs@.take(cs.len() as int) =~= cs@);
    assert(out@ =~= start + quoted(s@));
}

fn write_record(out: &mut String, p: &Password)
    ensures
        final(out)@ == old(out)@ + record_text(p@),
{
    let ghost start = out@;
    push_chars(out, &name_open_chars());
    write_quoted(out, &p.name);
    push_chars(out, &value_open_chars());
    write_quoted(out, &p.password);
    push_char(out, '}');
    assert(out@ =~= start + record_text(p@));
}

fn to_chars(s: &str) -> (r: Vec<char>)
    ensures
        r@ == s@,
{
    let mut v: Vec<char> = Vec::new();
    for c in it: s.chars()
        invariant
            v@ == it.seq().take(it.index() as int),
    {
        v.push(c);
    }
    v
}

/// Whether the records form a valid collection: names and values non-empty,
/// names distinct.
fn records_are_valid(ps: &Vec<Password>) -> (r: bool)
    ensures
        r == valid_records(views(ps@)),
{
    let ghost rs = views(ps@);
    let n = ps.len();
    let mut i: usize = 0;
    while i < n
        invariant
            n == ps.len(),
            i <= n,
            rs == views(ps@),
            forall|a: int| 0 <= a < i ==> (#[trigger] rs[a]).0.len() > 0 && rs[a].1.len() > 0,
            forall|a: int, b: int| 0 <= a < b < n && a < i ==> (#[trigger] rs[a]).0 != (#[trigger] rs[b]).0,
        decreases n - i,
    {
        if ps[i].name.as_str().is_empty() || ps[i].password.as_str().is_empty() {
            assert(rs[i as int] == ps@[i as int]@);
            return false;
        }
        let mut j: usize = i + 1;
        while j < n
            invariant
                n == ps.len(),
                i < j <= n,
                rs == views(ps@),
                forall|b: int| i < b < j ==> rs[i as int].0 != (#[trigger] rs[b]).0,
            decreases n - j,
        {
            if ps[i].name == ps[j].name {
                assert(rs[i as int].0 == rs[j as int].0);
                return false;
            }
            j = j + 1;
        }
        i = i + 1;
    }
    true
}


/// The key `passwords` of the payload object.
pub open spec fn passwords_key() -> Seq<char> {
    seq!['p', 'a', 's', 's', 'w', 'o', 'r', 'd', 's']
}

/// The key `name` of a record object.
pub open spec fn name_key() -> Seq<char> {
    seq!['n', 'a', 'm', 'e']
}

/// The key `password` of a record object.
pub open spec fn password_key() -> Seq<char> {
    seq!['p', 'a', 's', 's', 'w', 'o', 'r', 'd']
}

/// A JSON object whose members are arrays of string-valued objects, as its members
/// in key order, each object again as its members in key order.
pub type JsonObjectView = Seq<(Seq<char>, Seq<Seq<(Seq<char>, Seq<char>)>>)>;

/// The members of a JSON object whose members are arrays of string-valued objects.
pub type JsonMembers = Vec<(String, Vec<Vec<(String, String)>>)>;

/// What `serde_json` reads from `text` as `BTreeMap<String, Vec<BTreeMap<String, String>>>`,
/// or `None` where the text is not such a JSON value.
pub uninterp spec fn json_object_of(text: Seq<char>) -> Option<JsonObjectView>;

pub open spec fn pairs_view(m: Seq<(String, String)>) -> Seq<(Seq<char>, Seq<char>)> {
    m.map_values(|p: (String, String)| (p.0@, p.1@))
}

pub open spec fn array_view(a: Seq<Vec<(String, String)>>) -> Seq<Seq<(Seq<char>, Seq<char>)>> {
    a.map_values(|m: Vec<(String, String)>| pairs_view(m@))
}

pub open spec fn object_view(o: Seq<(String, Vec<Vec<(String, String)>>)>) -> JsonObjectView {
    o.map_values(|e: (String, Vec<Vec<(String, String)>>)| (e.0@, array_view(e.1@)))
}

/// A record as a JSON object: members `name` and `password`, in key order.
pub open spec fn record_object(r: RecordView) -> Seq<(Seq<char>, Seq<char>)> {
    seq![(name_key(), r.0), (password_key(), r.1)]
}

/// The collection as a JSON object: the one member `passwords`.
pub open spec fn payload_object(rs: Seq<RecordView>) -> JsonObjectView {
    seq![(passwords_key(), rs.map_values(|r: RecordView| record_object(r)))]
}

/// A JSON object with exactly the members `name` and `password`.
pub open spec fn is_record_object(m: Seq<(Seq<char>, Seq<char>)>) -> bool {
    m.len() == 2 && m[0].0 == name_key() && m[1].0 == password_key()
}

/// The records of a JSON object whose one member `passwords` holds record objects.
pub open spec fn records_of(o: JsonObjectView) -> Option<Seq<RecordView>> {
    if o.len() == 1 && o[0].0 == passwords_key() && forall|i: int|
        0 <= i < o[0].1.len() ==> is_record_object(#[trigger] o[0].1[i]) {
        Some(o[0].1.map_values(|m: Seq<(Seq<char>, Seq<char>)>| (m[0].1, m[1].1)))
    } else {
        None
    }
}

/// The collection that a payload text stands for: a JSON object (any white space,
/// member order and escapes) whose only member `passwords` is an array of objects
/// with exactly the string members `name` and `password`, forming a valid collection.
pub open spec fn decode_payload(t: Seq<char>) -> Option<Seq<RecordView>> {
    match json_object_of(t) {
        None => None,
        Some(o) => match records_of(o) {
            None => None,
            Some(rs) => if valid_records(rs) {
                Some(rs)
            } else {
                None
            },
        },
    }
}

/// Relies on `serde_json::from_str` into `BTreeMap<String, Vec<BTreeMap<String, String>>>`:
/// the members come out in key order, and the canonical payload text (standard JSON
/// string escapes, no white space) reads back as the payload object.
#[verifier::external_body]
fn parse_json(text: &str) -> (r: Option<JsonMembers>)
    ensures
        match r {
            Some(o) => json_object_of(text@) == Some(object_view(o@)),
            None => json_object_of(text@) is None,
        },
        forall|rs: Seq<RecordView>|
            #[trigger] payload_text(rs) == text@ ==> (r is Some && object_view(r->Some_0@)
                == payload_object(rs)),
{
    let map: BTreeMap<String, Vec<BTreeMap<String, String>>> = serde_json::from_str(text).ok()?;
    Some(map.into_iter().map(|(k, v)| (k, v.into_iter().map(|m| m.into_iter().collect()).collect())).collect())
}

fn passwords_key_chars() -> (r: Vec<char>)
    ensures
        r@ == passwords_key(),
{
    let r = vec!['p', 'a', 's', 's', 'w', 'o', 'r', 'd', 's'];
    assert(r@ =~= passwords_key());
    r
}

fn name_key_chars() -> (r: Vec<char>)
    ensures
        r@ == name_key(),
{
    let r = vec!['n', 'a', 'm', 'e'];
    assert(r@ =~= name_key());
    r
}

fn password_key_chars() -> (r: Vec<char>)
    ensures
        r@ == password_key(),
{
    let r = vec!['p', 'a', 's', 's', 'w', 'o', 'r', 'd'];
    assert(r@ =~= password_key());
    r
}

/// Whether the string holds exactly the characters `lit`.
fn str_is(s: &String, lit: &Vec<char>) -> (r: bool)
    ensures
        r == (s@ == lit@),
{
    let cs = to_chars(s.as_str());
    if cs.len() != lit.len() {
        return false;
    }
    let mut i: usize = 0;
    while i < cs.len()
        invariant
            i <= cs.len(),
            cs.len() == lit.len(),
            cs@ == s@,
            forall|j: int| 0 <= j < i ==> cs@[j] == lit@[j],
        decreases cs.len() - i,
    {
        if cs[i] != lit[i] {
            return false;
        }
        i = i + 1;
    }
    assert(cs@ =~= lit@);
    true
}

impl Schema {
    /// Reads a payload text: gives the collection it stands for, or `None` where it
    /// stands for none. The canonical text of a valid collection reads back as it.
    pub fn from_text(text: &str) -> (r: Option<Schema>)
        ensures
            r matches Some(s) ==> decode_payload(text@) == Some(s.records()),
            r is None <==> decode_payload(text@) is None,
            forall|rs: Seq<RecordView>|
                valid_records(rs) && #[trigger] payload_text(rs) == text@ ==> (r matches Some(s)
                    && s.records() == rs),
    {
        let o = match parse_json(text) {
            None => {
                return None;
            },
            Some(o) => o,
        };
        let ghost ov = object_view(o@);
        if o.len() != 1 || !str_is(&o[0].0, &passwords_key_chars()) {
            return None;
        }
        let arr = &o[0].1;
        let ghost av = ov[0].1;
        assert(av == array_view(arr@));
        let mut ps: Vec<Password> = Vec::new();
        let mut i: usize = 0;
        while i < arr.len()
            invariant
                i <= arr.len(),
                av == array_view(arr@),
                ov.len() == 1,
                ov[0].0 == passwords_key(),
                av == ov[0].1,
                json_object_of(text@) == Some(ov),
                forall|rs: Seq<RecordView>|
                    #[trigger] payload_text(rs) == text@ ==> ov == payload_object(rs),
                views(ps@) == av.take(i as int).map_values(
                    |m: Seq<(Seq<char>, Seq<char>)>| (m[0].1, m[1].1),
                ),
                forall|j: int| 0 <= j < i ==> is_record_object(#[trigger] av[j]),
            decreases arr.len() - i,
        {
            let m = &arr[i];
            assert(av[i as int] == pairs_view(m@));
            if m.len() != 2 || !str_is(&m[0].0, &name_key_chars()) || !str_is(
                &m[1].0,
                &password_key_chars(),
            ) {
                proof {
                    assert(ov[0].1[i as int] == av[i as int]);
                    assert(!is_record_object(ov[0].1[i as int]));
                    assert forall|rs: Seq<RecordView>| #[trigger] payload_text(rs) == text@ implies false by {
                        let po = payload_object(rs);
                        assert(po[0].1.len() == rs.len());
                        assert(po[0].1[i as int] == record_object(rs[i as int]));
                    }
                }
                return None;
            }
            let p = Password::new(m[0].1.clone(), m[1].1.clone());
            let ghost before = views(ps@);
            assert(pairs_view(m@)[0] == (m@[0].0@, m@[0].1@));
            assert(pairs_view(m@)[1] == (m@[1].0@, m@[1].1@));
            ps.push(p);
            assert(views(ps@) =~= before.push(p@));
            assert(av.take(i + 1) =~= av.take(i as int).push(av[i as int]));
            assert(views(ps@) =~= av.take(i + 1).map_values(
                |m: Seq<(Seq<char>, Seq<char>)>| (m[0].1, m[1].1),
            ));
            i = i + 1;
        }
        assert(av.take(arr.len() as int) =~= av);
        if !records_are_valid(&ps) {
            return None;
        }
        let s = Schema { passwords: ps };
        proof {
            assert forall|rs: Seq<RecordView>|
                valid_records(rs) && #[trigger] payload_text(rs) == text@ implies s.records()
                == rs by {
                let po = payload_object(rs);
                assert(po[0].1.map_values(|m: Seq<(Seq<char>, Seq<char>)>| (m[0].1, m[1].1)) =~= rs);
            }
        }
        Some(s)
    }
}

} // verus!
