//! The identifier resolution table: a bijection between dex ids and sprite
//! filename keys, with the English and the localized name of every id.

use bimap::BiHashMap;
use inflector::Inflector;
use rand::Rng;
use rust_fuzzy_search::fuzzy_search_best_n;
use crate::region::{region_bounds, Region};
use std::io::Cursor;
use vstd::prelude::*;

verus! {

#[verifier::external_type_specification]
#[verifier::external_body]
#[verifier::reject_recursive_types(L)]
#[verifier::reject_recursive_types(R)]
#[verifier::reject_recursive_types(LS)]
#[verifier::reject_recursive_types(RS)]
pub struct ExBiHashMap<L, R, LS, RS>(BiHashMap<L, R, LS, RS>);

/// The pairs `(id, filename key)` that a bimap holds, as a map from the id.
pub uninterp spec fn bimap_pairs(m: BiHashMap<usize, String>) -> Map<usize, Seq<char>>;

/// Relies on `BiHashMap::with_capacity`: the new bimap holds no pair.
#[verifier::external_body]
fn bimap_with_capacity(capacity: usize) -> (r: BiHashMap<usize, String>)
    ensures
        bimap_pairs(r) =~= Map::empty(),
{
    BiHashMap::with_capacity(capacity)
}

/// Relies on `BiHashMap::insert_no_overwrite`: the pair goes in when neither
/// its id nor its key is present yet; otherwise the bimap stays as it was.
#[verifier::external_body]
fn bimap_insert_no_overwrite(m: &mut BiHashMap<usize, String>, id: usize, key: String) -> (r: bool)
    ensures
        r == (!bimap_pairs(*old(m)).contains_key(id) && !bimap_pairs(*old(m)).contains_value(key@)),
        r ==> bimap_pairs(*final(m)) == bimap_pairs(*old(m)).insert(id, key@),
        !r ==> bimap_pairs(*final(m)) == bimap_pairs(*old(m)),
{
    m.insert_no_overwrite(id, key).is_ok()
}

/// Relies on `BiHashMap::get_by_left`: the key paired with `id`, if any.
#[verifier::external_body]
fn bimap_get_by_left(m: &BiHashMap<usize, String>, id: usize) -> (r: Option<&String>)
    ensures
        r is Some <==> bimap_pairs(*m).contains_key(id),
        r matches Some(k) ==> k@ == bimap_pairs(*m)[id],
{
    m.get_by_left(&id)
}

/// Relies on `BiHashMap::get_by_right`: the id paired with `key`, if any.
#[verifier::external_body]
fn bimap_get_by_right(m: &BiHashMap<usize, String>, key: &str) -> (r: Option<usize>)
    ensures
        r is Some <==> bimap_pairs(*m).contains_value(key@),
        r matches Some(id) ==> bimap_pairs(*m).contains_key(id) && bimap_pairs(*m)[id] == key@,
{
    m.get_by_right(key).copied()
}

#[verifier::external_type_specification]
#[verifier::external_body]
pub struct ExCsvError(csv::Error);

/// A record of the dataset: `(English name, localized name, filename key)`.
pub type Row = (String, String, String);

/// The records that the csv reader finds in a headerless text, or `None` when
/// the text is malformed.
pub uninterp spec fn csv_rows(text: Seq<char>) -> Option<Seq<(Seq<char>, Seq<char>, Seq<char>)>>;

/// The views of the fields of each record.
pub open spec fn rows_view(rows: Seq<Row>) -> Seq<(Seq<char>, Seq<char>, Seq<char>)> {
    rows.map_values(|t: Row| (t.0@, t.1@, t.2@))
}

/// Relies on the `csv` reader, without headers, deserialising each record
/// into three strings.
#[verifier::external_body]
fn parse_csv(text: &str) -> (r: Result<Vec<Row>, csv::Error>)
    ensures
        r is Ok <==> csv_rows(text@) is Some,
        r matches Ok(v) ==> csv_rows(text@) == Some(rows_view(v@)),
{
    let mut reader = csv::ReaderBuilder::new().has_headers(false).from_reader(Cursor::new(text));
    reader.deserialize().collect()
}

/// The lower case form of a string.
pub uninterp spec fn lower_of(s: Seq<char>) -> Seq<char>;

/// Relies on `str::to_lowercase`: the result depends on the characters alone.
#[verifier::external_body]
fn lowercase(s: &str) -> (r: String)
    ensures
        r@ == lower_of(s@),
{
    s.to_lowercase()
}

/// The title case form of a string.
pub uninterp spec fn title_of(s: Seq<char>) -> Seq<char>;

/// Relies on `Inflector::to_title_case`: the result depends on the
/// characters alone.
#[verifier::external_body]
fn title_case(s: &str) -> (r: String)
    ensures
        r@ == title_of(s@),
{
    s.to_title_case()
}

/// The entry of `pool` that scores best against `query` under trigram
/// similarity, the earliest among equal scores.
pub uninterp spec fn fuzzy_best(query: Seq<char>, pool: Seq<Seq<char>>) -> Seq<char>;

/// The views of a sequence of strings.
pub open spec fn strings_view(v: Seq<String>) -> Seq<Seq<char>> {
    v.map_values(|s: String| s@)
}

/// Relies on `rust_fuzzy_search::fuzzy_search_best_n` with `n = 1`: the best
/// scoring entry of the pool, which is one of its entries, or nothing when
/// the pool is empty.
#[verifier::external_body]
fn fuzzy_best_match(query: &str, pool: &Vec<String>) -> (r: Option<String>)
    ensures
        r is None <==> pool@.len() == 0,
        r matches Some(s) ==> s@ == fuzzy_best(query@, strings_view(pool@)),
        r matches Some(s) ==> strings_view(pool@).contains(s@),
{
    let list: Vec<&str> = pool.iter().map(|s| s.as_str()).collect();
    fuzzy_search_best_n(query, &list, 1).first().map(|(s, _)| s.to_string())
}

/// Relies on `rand::thread_rng` and `Rng::gen_range` over `lo..=hi`: some
/// number of that range.
#[verifier::external_body]
fn random_between(lo: usize, hi: usize) -> (r: usize)
    requires
        lo <= hi,
    ensures
        lo <= r <= hi,
{
    rand::thread_rng().gen_range(lo..=hi)
}

/// What can go wrong when building or sampling the table.
#[derive(Clone, Copy, Debug, PartialEq, Eq, Structural)]
pub enum ListError {
    /// The dataset text is not a well-formed table of three-field records.
    Malformed,
    /// Two records of the dataset share a filename key.
    DuplicateKey,
    /// A region reaches past the last id of the table.
    OutOfRange,
}

/// No two records share a filename key.
pub open spec fn keys_distinct(rows: Seq<(Seq<char>, Seq<char>, Seq<char>)>) -> bool {
    forall|a: int, b: int|
        0 <= a < rows.len() && 0 <= b < rows.len() && a != b ==> rows[a].2 != rows[b].2
}

/// Two names are equal up to case.
pub open spec fn same_name(a: Seq<char>, b: Seq<char>) -> bool {
    lower_of(a) == lower_of(b)
}

/// `i` is the first position of `names` whose name equals `query` up to case.
pub open spec fn is_first_match(names: Seq<Seq<char>>, query: Seq<char>, i: int) -> bool {
    &&& 0 <= i < names.len()
    &&& same_name(names[i], query)
    &&& forall|j: int| 0 <= j < i ==> !same_name(#[trigger] names[j], query)
}

/// The first position of `names` whose name equals `query` up to case.
pub open spec fn first_match(names: Seq<Seq<char>>, query: Seq<char>) -> Option<int> {
    if exists|i: int| is_first_match(names, query, i) {
        Some(choose|i: int| is_first_match(names, query, i))
    } else {
        None
    }
}

/// A filename key with hyphens turned into spaces and apostrophes dropped.
pub open spec fn strip_raw(s: Seq<char>) -> Seq<char>
    decreases s.len(),
{
    if s.len() == 0 {
        Seq::empty()
    } else {
        let rest = strip_raw(s.drop_last());
        if s.last() == '-' {
            rest.push(' ')
        } else if s.last() == '\'' {
            rest
        } else {
            rest.push(s.last())
        }
    }
}

/// The display name made from a filename key alone.
pub open spec fn raw_format(key: Seq<char>) -> Seq<char> {
    title_of(strip_raw(key))
}

/// The first position of `names` whose name equals `query` up to case.
fn position_of(names: &Vec<String>, query: &str) -> (r: Option<usize>)
    ensures
        r matches Some(i) ==> first_match(strings_view(names@), query@) == Some(i as int),
        r is None ==> first_match(strings_view(names@), query@) is None,
{
    let ghost sv = strings_view(names@);
    let wanted = lowercase(query);
    let mut i: usize = 0;
    while i < names.len()
        invariant
            sv == strings_view(names@),
            wanted@ == lower_of(query@),
            i <= names@.len(),
            forall|j: int| 0 <= j < i ==> !same_name(#[trigger] sv[j], query@),
        decreases names@.len() - i,
    {
        let candidate = lowercase(names[i].as_str());
        if candidate == wanted {
            proof {
                assert(is_first_match(sv, query@, i as int));
                assert forall|k: int| is_first_match(sv, query@, k) implies k == i as int by {
                    if k < i as int {
                        assert(!same_name(sv[k], query@));
                    } else if k > i as int {
                        assert(!same_name(sv[i as int], query@));
                    }
                }
            }
            return Some(i);
        }
        i = i + 1;
    }
    None
}

/// Replaces each hyphen by a space and drops each apostrophe.
fn strip_raw_exec(s: &str) -> (r: String)
    ensures
        r@ == strip_raw(s@),
{
    let n = s.unicode_len();
    let mut out = String::new();
    let mut i: usize = 0;
    while i < n
        invariant
            n == s@.len(),
            i <= n,
            out@ == strip_raw(s@.take(i as int)),
        decreases n - i,
    {
        let c = s.get_char(i);
        proof {
            assert(s@.take(i as int + 1).drop_last() =~= s@.take(i as int));
            assert(s@.take(i as int + 1).last() == c);
        }
        if c == '-' {
            proof { reveal_strlit(" "); }
            out.append(" ");
        } else if c != '\'' {
            let piece = s.substring_char(i, i + 1);
            proof { assert(piece@ =~= seq![c]); }
            out.append(piece);
        }
        proof {
            assert(out@ =~= strip_raw(s@.take(i as int + 1)));
        }
        i = i + 1;
    }
    proof { assert(s@.take(n as int) =~= s@); }
    out
}

/// The view of a borrowed string that may be absent.
pub open spec fn opt_view(r: Option<&String>) -> Option<Seq<char>> {
    match r {
        Some(s) => Some(s@),
        None => None,
    }
}

/// The table of names, keyed by dex id.
///
/// The ids are `0..len`; each id has exactly one filename key, no two ids
/// share one, and each id has an English and a localized name.
pub struct List {
    /// The dex ids and their filenames.
    ids: BiHashMap<usize, String>,
    /// The English names, in order of dex id.
    names: Vec<String>,
    /// The localized names, in order of dex id.
    german_names: Vec<String>,
}

impl List {
    /// The English names, in order of id.
    pub closed spec fn canonical(&self) -> Seq<Seq<char>> {
        strings_view(self.names@)
    }

    /// The localized names, in order of id.
    pub closed spec fn localized(&self) -> Seq<Seq<char>> {
        strings_view(self.german_names@)
    }

    /// The filename key of each id.
    pub closed spec fn keys(&self) -> Map<usize, Seq<char>> {
        bimap_pairs(self.ids)
    }

    /// The number of entries.
    pub open spec fn size(&self) -> nat {
        self.canonical().len()
    }

    /// The ids are `0..size`, every id has both names, and the keys are
    /// pairwise distinct.
    pub open spec fn wf(&self) -> bool {
        &&& self.localized().len() == self.canonical().len()
        &&& self.size() <= usize::MAX
        &&& forall|id: usize| self.keys().contains_key(id) <==> id < self.size()
        &&& forall|a: usize, b: usize|
            self.keys().contains_key(a) && self.keys().contains_key(b) && self.keys()[a]
                == self.keys()[b] ==> a == b
    }

    /// The table holds exactly the given records, the id of each being its
    /// position.
    pub open spec fn holds_rows(&self, rows: Seq<(Seq<char>, Seq<char>, Seq<char>)>) -> bool {
        &&& self.wf()
        &&& self.size() == rows.len()
        &&& forall|i: int|
            #![trigger rows[i]]
            0 <= i < rows.len() ==> {
                &&& self.canonical()[i] == rows[i].0
                &&& self.localized()[i] == rows[i].1
                &&& self.keys()[i as usize] == rows[i].2
            }
    }

    /// Builds the table from records, the id of each being its position.
    /// Fails when two records share a filename key.
    pub fn from_rows(rows: &Vec<Row>) -> (r: Result<List, ListError>)
        ensures
            r is Ok <==> keys_distinct(rows_view(rows@)),
            r matches Ok(list) ==> list.holds_rows(rows_view(rows@)),
            r matches Err(e) ==> e == ListError::DuplicateKey,
    {
        let n = rows.len();
        let mut ids = bimap_with_capacity(n);
        let mut names: Vec<String> = Vec::with_capacity(n);
        let mut german_names: Vec<String> = Vec::with_capacity(n);
        let ghost rv = rows_view(rows@);
        let mut i: usize = 0;
        while i < n
            invariant
                n == rows@.len(),
                rv == rows_view(rows@),
                i <= n,
                names@.len() == i,
                german_names@.len() == i,
                forall|j: int| 0 <= j < i ==> names@[j]@ == rv[j].0 && german_names@[j]@ == rv[j].1,
                forall|k: usize| bimap_pairs(ids).contains_key(k) <==> k < i,
                forall|k: usize| k < i ==> bimap_pairs(ids)[k] == rv[k as int].2,
                forall|a: int, b: int| 0 <= a < i && 0 <= b < i && a != b ==> rv[a].2 != rv[b].2,
            decreases n - i,
        {
            let row = &rows[i];
            let key = row.2.clone();
            let ghost before = bimap_pairs(ids);
            let ok = bimap_insert_no_overwrite(&mut ids, i, key);
            if !ok {
                proof {
                    assert(before.contains_value(rv[i as int].2));
                    let k = choose|k: usize| before.contains_key(k) && before[k] == rv[i as int].2;
                    assert(rv[k as int].2 == rv[i as int].2);
                }
                return Err(ListError::DuplicateKey);
            }
            names.push(row.0.clone());
            german_names.push(row.1.clone());
            proof {
                assert forall|a: int, b: int| 0 <= a < i + 1 && 0 <= b < i + 1 && a != b implies rv[a].2 != rv[b].2 by {
                    if a == i as int {
                        assert(before.dom().contains(b as usize));
                        assert(before[b as usize] == rv[b].2);
                        assert(before.contains_value(rv[b].2));
                    } else if b == i as int {
                        assert(before.dom().contains(a as usize));
                        assert(before[a as usize] == rv[a].2);
                        assert(before.contains_value(rv[a].2));
                    }
                }
            }
            i = i + 1;
        }
        let list = List { ids, names, german_names };
        proof {
            assert(list.canonical().len() == n);
            assert forall|a: usize, b: usize|
                list.keys().contains_key(a) && list.keys().contains_key(b) && list.keys()[a]
                    == list.keys()[b] implies a == b by {
                if a != b {
                    assert(rv[a as int].2 != rv[b as int].2);
                }
            }
        }
        Ok(list)
    }

    /// Builds the table from the dataset text: headerless csv, one record
    /// `(English name, localized name, filename key)` per line, the id of
    /// each being its position.
    pub fn read(text: &str) -> (r: Result<List, ListError>)
        ensures
            csv_rows(text@) is None ==> r == Err::<List, ListError>(ListError::Malformed),
            csv_rows(text@) matches Some(rows) ==> {
                &&& r is Ok <==> keys_distinct(rows)
                &&& r matches Ok(list) ==> list.holds_rows(rows)
                &&& r matches Err(e) ==> e == ListError::DuplicateKey
            },
    {
        match parse_csv(text) {
            Ok(rows) => List::from_rows(&rows),
            Err(_) => Err(ListError::Malformed),
        }
    }

    /// The filename key of an id, if the table has that id.
    pub open spec fn key_for_id(&self, id: int) -> Option<Seq<char>> {
        if 0 <= id <= usize::MAX && self.keys().contains_key(id as usize) {
            Some(self.keys()[id as usize])
        } else {
            None
        }
    }

    /// The id of a filename key, if some id has that key.
    pub open spec fn id_of_key(&self, key: Seq<char>) -> Option<usize> {
        if exists|id: usize| self.keys().contains_key(id) && self.keys()[id] == key {
            Some(choose|id: usize| self.keys().contains_key(id) && self.keys()[id] == key)
        } else {
            None
        }
    }

    /// The display name of a filename key: the localized name of its id, or
    /// the key itself made readable when no id has it.
    pub open spec fn display_name(&self, key: Seq<char>) -> Seq<char> {
        match self.id_of_key(key) {
            Some(id) => if id < self.localized().len() {
                self.localized()[id as int]
            } else {
                raw_format(key)
            },
            None => raw_format(key),
        }
    }

    /// The id named by `query` up to case: the first localized name that
    /// matches, else the first English name that matches.
    pub open spec fn id_for_name(&self, query: Seq<char>) -> Option<int> {
        match first_match(self.localized(), query) {
            Some(i) => Some(i),
            None => first_match(self.canonical(), query),
        }
    }

    /// The filename key of the id named by `query` up to case.
    pub open spec fn key_for_name(&self, query: Seq<char>) -> Option<Seq<char>> {
        match self.id_for_name(query) {
            Some(i) => self.key_for_id(i),
            None => None,
        }
    }

    /// Every localized name, then every English name.
    pub open spec fn fuzzy_pool(&self) -> Seq<Seq<char>> {
        self.localized() + self.canonical()
    }

    /// The name that an approximate query stands for: the best scoring name
    /// of the pool, or the empty name when the pool is empty.
    pub open spec fn fuzzy_target(&self, query: Seq<char>) -> Seq<char> {
        if self.fuzzy_pool().len() == 0 {
            Seq::empty()
        } else {
            fuzzy_best(query, self.fuzzy_pool())
        }
    }

    /// The number of entries.
    pub fn len(&self) -> (r: usize)
        ensures
            r == self.size(),
    {
        self.names.len()
    }

    /// Takes a filename and looks up the proper display name: the localized
    /// name of its id, or else the filename with hyphens turned into spaces,
    /// apostrophes dropped, in title case.
    pub fn format_name(&self, filename: &str) -> (r: String)
        requires
            self.wf(),
        ensures
            r@ == self.display_name(filename@),
    {
        let id = match bimap_get_by_right(&self.ids, filename) {
            Some(id) => id,
            None => {
                return title_case(strip_raw_exec(filename).as_str());
            },
        };
        proof {
            let c = choose|c: usize| self.keys().contains_key(c) && self.keys()[c] == filename@;
            assert(c == id);
        }
        if id < self.german_names.len() {
            self.german_names[id].clone()
        } else {
            title_case(strip_raw_exec(filename).as_str())
        }
    }

    /// Gets a filename by its name, localized or English, up to case.
    pub fn get_by_name(&self, name: &str) -> (r: Option<&String>)
        ensures
            opt_view(r) == self.key_for_name(name@),
    {
        let mut id = position_of(&self.german_names, name);
        if id.is_none() {
            id = position_of(&self.names, name);
        }
        match id {
            Some(i) => self.get_by_id(i),
            None => None,
        }
    }

    /// Gets a filename by an approximate name: the best scoring name among
    /// the localized and English names is looked up by `get_by_name`.
    pub fn get_by_name_fuzzy(&self, name: &str) -> (r: Option<&String>)
        ensures
            opt_view(r) == self.key_for_name(self.fuzzy_target(name@)),
    {
        let mut pool: Vec<String> = Vec::new();
        let mut i: usize = 0;
        while i < self.german_names.len()
            invariant
                i <= self.german_names@.len(),
                pool@.len() == i,
                forall|k: int| 0 <= k < i ==> pool@[k]@ == self.german_names@[k]@,
            decreases self.german_names@.len() - i,
        {
            pool.push(self.german_names[i].clone());
            i = i + 1;
        }
        let mut j: usize = 0;
        while j < self.names.len()
            invariant
                j <= self.names@.len(),
                pool@.len() == self.german_names@.len() + j,
                forall|k: int| 0 <= k < self.german_names@.len() ==> pool@[k]@ == self.german_names@[k]@,
                forall|k: int| 0 <= k < j ==> pool@[self.german_names@.len() + k]@ == self.names@[k]@,
            decreases self.names@.len() - j,
        {
            pool.push(self.names[j].clone());
            j = j + 1;
        }
        proof {
            assert(strings_view(pool@) =~= self.fuzzy_pool());
        }
        let target = match fuzzy_best_match(name, &pool) {
            Some(best) => best,
            None => String::new(),
        };
        self.get_by_name(target.as_str())
    }

    /// Gets a filename by a dex id.
    pub fn get_by_id(&self, id: usize) -> (r: Option<&String>)
        ensures
            opt_view(r) == self.key_for_id(id as int),
    {
        bimap_get_by_left(&self.ids, id)
    }

    /// Gets the filename of an id drawn at random from the whole table.
    pub fn random(&self) -> (r: String)
        requires
            self.wf(),
            self.size() > 0,
        ensures
            exists|id: int| 0 <= id < self.size() && self.key_for_id(id) == Some(r@),
    {
        let idx = random_between(0, self.names.len() - 1);
        let key = self.get_by_id(idx).unwrap();
        key.clone()
    }

    /// Gets the filename of an id drawn at random from a region. Fails when
    /// the region reaches past the last id of the table.
    pub fn get_by_region(&self, region: Region) -> (r: Result<String, ListError>)
        requires
            self.wf(),
        ensures
            r is Err <==> region_bounds(region).1 >= self.size(),
            r matches Err(e) ==> e == ListError::OutOfRange,
            r matches Ok(key) ==> exists|id: int|
                region_bounds(region).0 <= id <= region_bounds(region).1 && self.key_for_id(id)
                    == Some(key@),
    {
        let (lo, hi) = region.bounds();
        if hi >= self.names.len() {
            return Err(ListError::OutOfRange);
        }
        let idx = random_between(lo, hi);
        let key = self.get_by_id(idx).unwrap();
        Ok(key.clone())
    }

}

/// At most one position is the first match of a query.
pub proof fn lemma_first_match_unique(names: Seq<Seq<char>>, query: Seq<char>, i: int, j: int)
    requires
        is_first_match(names, query, i),
        is_first_match(names, query, j),
    ensures
        i == j,
{
    if i < j {
        assert(!same_name(names[i], query));
    } else if j < i {
        assert(!same_name(names[j], query));
    }
}

/// Names equal up to case have the same first match in any list of names.
pub proof fn lemma_first_match_up_to_case(names: Seq<Seq<char>>, a: Seq<char>, b: Seq<char>)
    requires
        lower_of(a) == lower_of(b),
    ensures
        first_match(names, a) == first_match(names, b),
{
    assert forall|i: int| is_first_match(names, a, i) <==> is_first_match(names, b, i) by {
        assert forall|j: int| 0 <= j < names.len() implies same_name(names[j], a) == same_name(
            names[j],
            b,
        ) by {}
    }
    if let Some(i) = first_match(names, a) {
        let k = choose|k: int| is_first_match(names, b, k);
        lemma_first_match_unique(names, b, i, k);
    }
}

/// Every loaded record keeps its position as id: looking up the id gives the
/// record's filename key, looking up that key gives the id back, and the key
/// displays as the record's localized name.
pub proof fn lemma_id_key_round_trip(
    list: List,
    rows: Seq<(Seq<char>, Seq<char>, Seq<char>)>,
    id: int,
)
    requires
        list.holds_rows(rows),
        0 <= id < rows.len(),
    ensures
        list.key_for_id(id) == Some(rows[id].2),
        list.id_of_key(rows[id].2) == Some(id as usize),
        list.display_name(rows[id].2) == rows[id].1,
{
    let u = id as usize;
    assert(list.keys().contains_key(u));
    assert(list.keys()[u] == rows[id].2);
    let c = choose|c: usize| list.keys().contains_key(c) && list.keys()[c] == rows[id].2;
    assert(c == u);
}

/// A filename key found by name displays as the localized name of an entry
/// whose localized or English name equals the query up to case.
pub proof fn lemma_name_round_trip(list: List, name: Seq<char>)
    requires
        list.wf(),
        list.key_for_name(name) is Some,
    ensures
        exists|i: int|
            0 <= i < list.size() && list.display_name(list.key_for_name(name)->0)
                == list.localized()[i] && (same_name(list.localized()[i], name) || same_name(
                list.canonical()[i],
                name,
            )),
{
    let i = list.id_for_name(name)->0;
    if let Some(l) = first_match(list.localized(), name) {
        assert(is_first_match(list.localized(), name, l));
    } else {
        assert(is_first_match(list.canonical(), name, i));
    }
    let u = i as usize;
    assert(list.keys().contains_key(u));
    let c = choose|c: usize|
        list.keys().contains_key(c) && list.keys()[c] == list.key_for_name(name)->0;
    assert(c == u);
    assert(list.display_name(list.key_for_name(name)->0) == list.localized()[i]);
}

/// A filename key that no id has displays as the key made readable.
pub proof fn lemma_unknown_key_display(list: List, key: Seq<char>)
    requires
        forall|id: int| list.key_for_id(id) != Some(key),
    ensures
        list.display_name(key) == raw_format(key),
{
    if exists|id: usize| list.keys().contains_key(id) && list.keys()[id] == key {
        let id = choose|id: usize| list.keys().contains_key(id) && list.keys()[id] == key;
        assert(list.key_for_id(id as int) == Some(key));
    }
}

/// Lookup by name ignores case.
pub proof fn lemma_name_lookup_ignores_case(list: List, a: Seq<char>, b: Seq<char>)
    requires
        lower_of(a) == lower_of(b),
    ensures
        list.key_for_name(a) == list.key_for_name(b),
{
    lemma_first_match_up_to_case(list.localized(), a, b);
    lemma_first_match_up_to_case(list.canonical(), a, b);
}

/// No id at or past the size of the table has a filename key.
pub proof fn lemma_id_past_end(list: List, id: int)
    requires
        list.wf(),
        id >= list.size(),
    ensures
        list.key_for_id(id) is None,
{
}

/// On an empty table an approximate lookup finds nothing.
pub proof fn lemma_fuzzy_on_empty(list: List, query: Seq<char>)
    requires
        list.wf(),
        list.size() == 0,
    ensures
        list.key_for_name(list.fuzzy_target(query)) is None,
{
    assert(list.localized().len() == 0);
    assert(first_match(list.localized(), Seq::empty()) is None);
    assert(first_match(list.canonical(), Seq::empty()) is None);
}

} // verus!
