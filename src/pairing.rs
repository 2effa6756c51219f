//! Discovery of the numbered `PROF` / `DATA` file pairs that make up one
//! export, from the names found in its two folders.

use std::collections::{BTreeMap, BTreeSet};

use vstd::prelude::*;
use vstd::std_specs::cmp::OrdSpec;
use vstd::std_specs::iter::IteratorSpec;

use crate::number::{all_digits, digits_at_most, digits_value};
use crate::text::{chars_of, views};

verus! {

broadcast use {vstd::std_specs::btree::group_btree_axioms, vstd::laws_cmp::group_laws_cmp};

/// The folder of the profile files.
pub const PROFILE_FOLDER_NAME: &'static str = "SYSTEM";

/// The folder of the measurement files.
pub const DATA_FOLDER_NAME: &'static str = "DATA";

/// The name of a measurement file starts so.
pub const DATA_FILE_NAME_PREFIX: &'static str = "DATA";

/// The name of a profile file starts so.
pub const PROFILE_FILE_NAME_PREFIX: &'static str = "PROF";

/// The name of any record file ends so.
pub const CSV_EXTENTION_NAME: &'static str = ".CSV";

/// Why an export cannot be loaded as a whole.
#[derive(Clone, Debug)]
pub enum TanitaValidationError {
    /// A required folder is missing; it holds the folder's name.
    MissingDir(&'static str),
    /// Neither folder holds a record file.
    NoFilesFound,
    /// Some numbers have a file on one side only.
    Unpaired { missing_in_data: BTreeSet<u32>, missing_in_profile: BTreeSet<u32> },
    /// A file of the user with this number could not be read.
    UnreadableFile(u32),
}

/// The profile and measurement files of one numbered user, by file name.
#[derive(Clone, Debug, PartialEq, Eq)]
pub struct TanitaPair {
    pub index: u32,
    /// The file's name in the profile folder.
    pub profile: String,
    /// The file's name in the measurement folder.
    pub data: String,
}

/// A locator of an export on disk: the folder that holds the profile and
/// measurement folders.
pub struct TanitaParser {
    pub root_dir: std::path::PathBuf,
}

/// Makes `std::path::PathBuf` usable in fields and messages; it is carried
/// through and never looked into.
#[verifier::external_type_specification]
#[verifier::external_body]
pub struct ExPathBuf(std::path::PathBuf);

/// `c`, upper-cased as ASCII, is `u`.
pub open spec fn upper_is(c: char, u: char) -> bool {
    c == u || (65 <= u as u32 && u as u32 <= 90 && c as u32 == u as u32 + 32)
}

/// `s`, upper-cased as ASCII, is `pat`.
pub open spec fn upper_matches(s: Seq<char>, pat: Seq<char>) -> bool {
    s.len() == pat.len() && forall|i: int| 0 <= i < s.len() ==> upper_is(s[i], pat[i])
}

/// The number in a file name of the form `<prefix><digits><suffix>`, letter
/// case aside, if it fits in `u32`.
pub open spec fn file_index(name: Seq<char>, prefix: Seq<char>, suffix: Seq<char>) -> Option<u32> {
    let p = prefix.len() as int;
    let e = name.len() - suffix.len();
    let digits = name.subrange(p, e);
    if p <= e && upper_matches(name.subrange(0, p), prefix) && upper_matches(
        name.subrange(e, name.len() as int),
        suffix,
    ) && digits.len() > 0 && all_digits(digits) && digits_value(digits) <= u32::MAX {
        Some(digits_value(digits) as u32)
    } else {
        None
    }
}

/// The files among `names` that carry a number, by number; of two names
/// with one number the later is kept.
pub open spec fn index_map(names: Seq<Seq<char>>, prefix: Seq<char>) -> Map<u32, Seq<char>>
    decreases names.len(),
{
    if names.len() == 0 {
        Map::empty()
    } else {
        let m = index_map(names.drop_last(), prefix);
        match file_index(names.last(), prefix, CSV_EXTENTION_NAME@) {
            Some(i) => m.insert(i, names.last()),
            None => m,
        }
    }
}

/// `ps` holds, in increasing order of number, one pair for each number of
/// `p`, with its names in `p` and in `d`.
pub open spec fn pairs_cover(ps: Seq<TanitaPair>, p: Map<u32, Seq<char>>, d: Map<u32, Seq<char>>) -> bool {
    &&& forall|i: int, j: int| 0 <= i < j < ps.len() ==> ps[i].index < ps[j].index
    &&& forall|i: int|
        0 <= i < ps.len() ==> p.contains_key(#[trigger] ps[i].index) && d.contains_key(ps[i].index)
            && ps[i].profile@ == p[ps[i].index] && ps[i].data@ == d[ps[i].index]
    &&& forall|k: u32| p.contains_key(k) ==> exists|i: int| 0 <= i < ps.len() && #[trigger] ps[i].index == k
}

/// The outcome of pairing the names of the profile folder with those of
/// the measurement folder.
pub open spec fn pairing_outcome(
    system: Seq<Seq<char>>,
    data: Seq<Seq<char>>,
    r: Result<Vec<TanitaPair>, TanitaValidationError>,
) -> bool {
    let p = index_map(system, PROFILE_FILE_NAME_PREFIX@);
    let d = index_map(data, DATA_FILE_NAME_PREFIX@);
    if p.dom() == Set::<u32>::empty() && d.dom() == Set::<u32>::empty() {
        r matches Err(TanitaValidationError::NoFilesFound)
    } else if p.dom() != d.dom() {
        r matches Err(TanitaValidationError::Unpaired { missing_in_data, missing_in_profile })
            && missing_in_data@ == p.dom() - d.dom() && missing_in_profile@ == d.dom() - p.dom()
    } else {
        r matches Ok(ps) && pairs_cover(ps@, p, d)
    }
}

/// The characters of `cs` from `at` on, upper-cased as ASCII, start with `pat`.
fn upper_matches_at(cs: &Vec<char>, at: usize, pat: &Vec<char>) -> (r: bool)
    requires
        at + pat.len() <= cs.len(),
    ensures
        r == upper_matches(cs@.subrange(at as int, at + pat.len()), pat@),
{
    let mut i: usize = 0;
    while i < pat.len()
        invariant
            i <= pat.len(),
            at + pat.len() <= cs.len(),
            forall|j: int| 0 <= j < i ==> upper_is(cs@[at + j], pat@[j]),
        decreases pat.len() - i,
    {
        let c = cs[at + i];
        let u = pat[i];
        if !(c == u || (65 <= u as u32 && u as u32 <= 90 && c as u32 == u as u32 + 32)) {
            assert(!upper_is(cs@.subrange(at as int, at + pat.len())[i as int], pat@[i as int]));
            return false;
        }
        assert(upper_is(cs@[at + i], pat@[i as int]));
        i += 1;
    }
    true
}

impl TanitaParser {
    /// The number in `file_name` if it reads `<prefix><digits>.CSV`, letter
    /// case aside, and the number fits in `u32`.
    pub fn get_index(file_name: &str, prefix: &str) -> (r: Option<u32>)
        ensures
            r == file_index(file_name@, prefix@, CSV_EXTENTION_NAME@),
    {
        let name = chars_of(file_name);
        let pre = chars_of(prefix);
        let suf = chars_of(CSV_EXTENTION_NAME);
        let n = name.len();
        if pre.len() > n || suf.len() > n - pre.len() {
            return None;
        }
        let e = n - suf.len();
        if !upper_matches_at(&name, 0, &pre) || !upper_matches_at(&name, e, &suf) {
            return None;
        }
        if e == pre.len() {
            return None;
        }
        assert(name@.subrange(0, pre.len() as int) == name@.subrange(0, 0 + pre.len()));
        match digits_at_most(&name, pre.len(), e, 4294967295) {
            Some(v) => Some(v as u32),
            None => None,
        }
    }
}

/// The views of a sequence of strings.
pub open spec fn string_views(v: Seq<String>) -> Seq<Seq<char>> {
    v.map_values(|s: String| s@)
}

/// The names among `names` that carry a number, by number: see [`index_map`].
fn collect_files(names: &Vec<String>, prefix: &str) -> (m: BTreeMap<u32, String>)
    ensures
        m@.dom() == index_map(string_views(names@), prefix@).dom(),
        forall|k: u32| #[trigger]
            m@.contains_key(k) ==> m@[k]@ == index_map(string_views(names@), prefix@)[k],
{
    let ghost sv = string_views(names@);
    let mut m: BTreeMap<u32, String> = BTreeMap::new();
    let mut i: usize = 0;
    assert(sv.subrange(0, 0) =~= Seq::<Seq<char>>::empty());
    while i < names.len()
        invariant
            i <= names.len(),
            sv == string_views(names@),
            m@.dom() == index_map(sv.subrange(0, i as int), prefix@).dom(),
            forall|k: u32| #[trigger]
                m@.contains_key(k) ==> m@[k]@ == index_map(sv.subrange(0, i as int), prefix@)[k],
        decreases names.len() - i,
    {
        let ghost next = sv.subrange(0, i + 1);
        assert(next.drop_last() =~= sv.subrange(0, i as int));
        assert(next.last() == names@[i as int]@);
        match TanitaParser::get_index(names[i].as_str(), prefix) {
            Some(idx) => {
                m.insert(idx, names[i].clone());
                assert(m@.dom() =~= index_map(next, prefix@).dom());
            },
            None => {},
        }
        i += 1;
    }
    assert(sv.subrange(0, names.len() as int) =~= sv);
    m
}

impl TanitaParser {
    /// Pairs the record files of an export by number, given the names that
    /// the measurement folder and the profile folder hold, or nothing for a
    /// folder that is missing. Either folder missing fails with its name;
    /// no record file at all fails; a number with a file on one side only
    /// fails for the whole export. Otherwise there is one pair per number,
    /// in increasing order.
    pub fn pair_files(data: Option<Vec<String>>, system: Option<Vec<String>>) -> (r: Result<
        Vec<TanitaPair>,
        TanitaValidationError,
    >)
        ensures
            data is None ==> (r matches Err(TanitaValidationError::MissingDir(n)) && n@
                == DATA_FOLDER_NAME@),
            data is Some && system is None ==> (r matches Err(
                TanitaValidationError::MissingDir(n),
            ) && n@ == PROFILE_FOLDER_NAME@),
            data is Some && system is Some ==> pairing_outcome(
                string_views(system->0@),
                string_views(data->0@),
                r,
            ),
    {
        let data = match data {
            Some(d) => d,
            None => {
                return Err(TanitaValidationError::MissingDir(DATA_FOLDER_NAME));
            },
        };
        let system = match system {
            Some(s) => s,
            None => {
                return Err(TanitaValidationError::MissingDir(PROFILE_FOLDER_NAME));
            },
        };
        let prof_files = collect_files(&system, PROFILE_FILE_NAME_PREFIX);
        let data_files = collect_files(&data, DATA_FILE_NAME_PREFIX);
        let ghost p = index_map(string_views(system@), PROFILE_FILE_NAME_PREFIX@);
        let ghost d = index_map(string_views(data@), DATA_FILE_NAME_PREFIX@);
        if prof_files.is_empty() && data_files.is_empty() {
            assert(p.dom() =~= Set::<u32>::empty());
            assert(d.dom() =~= Set::<u32>::empty());
            return Err(TanitaValidationError::NoFilesFound);
        }
        let mut pairs: Vec<TanitaPair> = Vec::new();
        let mut missing_in_data: BTreeSet<u32> = BTreeSet::new();
        let prof_iter = prof_files.iter();
        proof {
            let rem = prof_iter;
            assert(vstd::std_specs::btree::key_obeys_cmp_spec::<u32>());
            let ks = rem.remaining().map_values(|kv: (&u32, &String)| *kv.0);
            assert(vstd::std_specs::btree::increasing_seq(ks));
            assert forall|i: int, j: int|
                0 <= i < j < rem.remaining().len() implies *rem.remaining()[i].0
                < *rem.remaining()[j].0 by {
                assert(ks[i] == *rem.remaining()[i].0);
                assert(ks[j] == *rem.remaining()[j].0);
                assert(ks[i].cmp_spec(&ks[j]) is Less);
            }
        }
        for (k, v) in it: prof_iter
            invariant
                prof_files@.dom() == p.dom(),
                data_files@.dom() == d.dom(),
                forall|x: u32| #[trigger] prof_files@.contains_key(x) ==> prof_files@[x]@ == p[x],
                forall|x: u32| #[trigger] data_files@.contains_key(x) ==> data_files@[x]@ == d[x],
                it.seq().len() == p.dom().len(),
                forall|x: u32|
                    p.contains_key(x) ==> exists|j: int|
                        0 <= j < it.seq().len() && *(#[trigger] it.seq()[j]).0 == x,
                forall|j: int|
                    0 <= j < it.seq().len() ==> p.contains_key(*(#[trigger] it.seq()[j]).0) && *it.seq()[j].1
                        == prof_files@[*it.seq()[j].0],
                forall|i: int, j: int|
                    0 <= i < j < it.seq().len() ==> *(#[trigger] it.seq()[i]).0 < *(#[trigger] it.seq()[j]).0,
                missing_in_data@ == Set::new(
                    |x: u32|
                        exists|j: int|
                            0 <= j < it.index() && *(#[trigger] it.seq()[j]).0 == x && !d.contains_key(x),
                ),
                missing_in_data@ == Set::<u32>::empty() ==> {
                    &&& pairs@.len() == it.index()
                    &&& forall|j: int|
                        0 <= j < it.index() ==> pairs@[j].index == *(#[trigger] it.seq()[j]).0
                    &&& forall|i: int|
                        0 <= i < pairs@.len() ==> p.contains_key(#[trigger] pairs@[i].index)
                            && d.contains_key(pairs@[i].index) && pairs@[i].profile@ == p[pairs@[i].index]
                            && pairs@[i].data@ == d[pairs@[i].index]
                    &&& forall|i: int, j: int|
                        0 <= i < j < pairs@.len() ==> (#[trigger] pairs@[i]).index < (
                        #[trigger] pairs@[j]).index
                    &&& forall|x: u32|
                        p.contains_key(x) ==> (exists|i: int|
                            0 <= i < pairs@.len() && #[trigger] pairs@[i].index == x) || (exists|j: int|
                            it.index() <= j < it.seq().len() && *(#[trigger] it.seq()[j]).0 == x)
                },
        {
            let ghost j0 = it.index();
            assert(*k == *it.seq()[j0].0);
            let ghost old_missing = missing_in_data@;
            let ghost old_pairs = pairs@;
            match data_files.get(k) {
                Some(dv) => {
                    assert(d.contains_key(*k));
                    pairs.push(TanitaPair { index: *k, profile: v.clone(), data: dv.clone() });
                    proof {
                        if old_missing == Set::<u32>::empty() {
                            assert(pairs@[j0].index == *k);
                            assert forall|x: u32| p.contains_key(x) implies (exists|i: int|
                                0 <= i < pairs@.len() && #[trigger] pairs@[i].index == x) || (exists|j: int|
                                j0 + 1 <= j < it.seq().len() && *(#[trigger] it.seq()[j]).0 == x) by {
                                if exists|i: int| 0 <= i < old_pairs.len() && #[trigger] old_pairs[i].index == x {
                                    let i = choose|i: int| 0 <= i < old_pairs.len() && #[trigger] old_pairs[i].index == x;
                                    assert(pairs@[i] == old_pairs[i]);
                                } else {
                                    let j = choose|j: int| j0 <= j < it.seq().len() && *(#[trigger] it.seq()[j]).0 == x;
                                    if j == j0 {
                                        assert(pairs@[j0].index == x);
                                    }
                                }
                            }
                            assert forall|i: int, j: int|
                                0 <= i < j < pairs@.len() implies (#[trigger] pairs@[i]).index < (
                                #[trigger] pairs@[j]).index by {
                                if j == j0 {
                                    assert(pairs@[i] == old_pairs[i]);
                                    assert(old_pairs[i].index == *it.seq()[i].0);
                                } else {
                                    assert(pairs@[i] == old_pairs[i]);
                                    assert(pairs@[j] == old_pairs[j]);
                                }
                            }
                        }
                    }
                    assert(missing_in_data@ =~= Set::new(
                        |x: u32|
                            exists|j: int|
                                0 <= j < j0 + 1 && *(#[trigger] it.seq()[j]).0 == x
                                    && !d.contains_key(x),
                    ));
                },
                None => {
                    assert(!d.contains_key(*k));
                    missing_in_data.insert(*k);
                    assert(missing_in_data@ =~= Set::new(
                        |x: u32|
                            exists|j: int|
                                0 <= j < j0 + 1 && *(#[trigger] it.seq()[j]).0 == x
                                    && !d.contains_key(x),
                    ));
                    assert(missing_in_data@.contains(*k));
                },
            }
        }
        assert(missing_in_data@ =~= p.dom().difference(d.dom()));
        assert(missing_in_data@ == Set::<u32>::empty() ==> pairs_cover(pairs@, p, d));
        let mut missing_in_profile: BTreeSet<u32> = BTreeSet::new();
        for (k, v) in it: data_files.iter()
            invariant
                prof_files@.dom() == p.dom(),
                data_files@.dom() == d.dom(),
                forall|j: int|
                    0 <= j < it.seq().len() ==> d.contains_key(*(#[trigger] it.seq()[j]).0),
                forall|x: u32|
                    d.contains_key(x) ==> exists|j: int|
                        0 <= j < it.seq().len() && *(#[trigger] it.seq()[j]).0 == x,
                missing_in_profile@ == Set::new(
                    |x: u32|
                        exists|j: int|
                            0 <= j < it.index() && *(#[trigger] it.seq()[j]).0 == x && !p.contains_key(x),
                ),
        {
            if !prof_files.contains_key(k) {
                missing_in_profile.insert(*k);
            }
        }
        assert(missing_in_profile@ =~= d.dom().difference(p.dom()));
        if !missing_in_data.is_empty() || !missing_in_profile.is_empty() {
            proof {
                if p.dom() == d.dom() {
                    assert(missing_in_data@ =~= Set::<u32>::empty());
                    assert(missing_in_profile@ =~= Set::<u32>::empty());
                }
            }
            return Err(TanitaValidationError::Unpaired { missing_in_data, missing_in_profile });
        }
        assert(missing_in_data@ =~= Set::<u32>::empty());
        assert(p.dom() =~= d.dom()) by {
            assert forall|x: u32| p.dom().contains(x) implies d.dom().contains(x) by {
                assert(!missing_in_data@.contains(x));
            }
            assert forall|x: u32| d.dom().contains(x) implies p.dom().contains(x) by {
                assert(!missing_in_profile@.contains(x));
            }
        }
        Ok(pairs)
    }
}

/// `c` and `d` are the same character once upper-cased as ASCII.
pub open spec fn same_upper(c: char, d: char) -> bool {
    c == d || (97 <= c as u32 && c as u32 <= 122 && d as u32 + 32 == c as u32) || (97 <= d as u32
        && d as u32 <= 122 && c as u32 + 32 == d as u32)
}

/// `a` and `b` differ at most in the ASCII case of their letters.
pub open spec fn same_ignoring_case(a: Seq<char>, b: Seq<char>) -> bool {
    a.len() == b.len() && forall|i: int| 0 <= i < a.len() ==> same_upper(a[i], b[i])
}

/// `p` holds no lower-case ASCII letter.
pub open spec fn no_lower(p: Seq<char>) -> bool {
    forall|i: int| 0 <= i < p.len() ==> !(97 <= p[i] as u32 && p[i] as u32 <= 122)
}

/// Characters with one code are one character.
proof fn lemma_same_code(c: char, d: char)
    ensures
        c as u32 == d as u32 ==> c == d,
{
    vstd::utf8::char_u32_cast(c, c as u32);
    vstd::utf8::char_u32_cast(d, d as u32);
}

proof fn lemma_upper_matches_ignores_case(a: Seq<char>, b: Seq<char>, pat: Seq<char>)
    requires
        same_ignoring_case(a, b),
        no_lower(pat),
    ensures
        upper_matches(a, pat) == upper_matches(b, pat),
{
    if upper_matches(a, pat) {
        assert forall|i: int| 0 <= i < b.len() implies upper_is(b[i], pat[i]) by {
            assert(upper_is(a[i], pat[i]) && same_upper(a[i], b[i]));
            lemma_same_code(b[i], pat[i]);
            lemma_same_code(a[i], b[i]);
        }
    }
    if upper_matches(b, pat) {
        assert forall|i: int| 0 <= i < a.len() implies upper_is(a[i], pat[i]) by {
            assert(upper_is(b[i], pat[i]) && same_upper(a[i], b[i]));
            lemma_same_code(a[i], pat[i]);
            lemma_same_code(a[i], b[i]);
        }
    }
}

/// The number in a file name does not depend on the case of its letters.
pub proof fn lemma_file_index_ignores_case(
    n1: Seq<char>,
    n2: Seq<char>,
    prefix: Seq<char>,
    suffix: Seq<char>,
)
    requires
        same_ignoring_case(n1, n2),
        no_lower(prefix),
        no_lower(suffix),
    ensures
        file_index(n1, prefix, suffix) == file_index(n2, prefix, suffix),
{
    let p = prefix.len() as int;
    let e = n1.len() - suffix.len();
    if p <= e {
        lemma_upper_matches_ignores_case(n1.subrange(0, p), n2.subrange(0, p), prefix);
        lemma_upper_matches_ignores_case(
            n1.subrange(e, n1.len() as int),
            n2.subrange(e, n2.len() as int),
            suffix,
        );
        let d1 = n1.subrange(p, e);
        let d2 = n2.subrange(p, e);
        if all_digits(d1) || all_digits(d2) {
            assert forall|i: int| 0 <= i < d1.len() implies d1[i] == d2[i] by {
                assert(same_upper(n1[p + i], n2[p + i]));
                lemma_same_code(d1[i], d2[i]);
            }
            assert(d1 =~= d2);
        }
    }
}

/// Two folders whose names differ at most in letter case give the same
/// file numbers.
pub proof fn lemma_index_map_ignores_case(
    names1: Seq<Seq<char>>,
    names2: Seq<Seq<char>>,
    prefix: Seq<char>,
)
    requires
        names1.len() == names2.len(),
        forall|i: int| 0 <= i < names1.len() ==> same_ignoring_case(names1[i], names2[i]),
        no_lower(prefix),
    ensures
        index_map(names1, prefix).dom() == index_map(names2, prefix).dom(),
    decreases names1.len(),
{
    if names1.len() > 0 {
        lemma_index_map_ignores_case(names1.drop_last(), names2.drop_last(), prefix);
        reveal_strlit(".CSV");
        assert(no_lower(CSV_EXTENTION_NAME@));
        lemma_file_index_ignores_case(names1.last(), names2.last(), prefix, CSV_EXTENTION_NAME@);
    }
}

/// Pairing does not depend on the letter case of file names: folders whose
/// names differ at most in case pair the same numbers, or fail alike.
pub proof fn lemma_pairing_ignores_case(
    system1: Seq<Seq<char>>,
    system2: Seq<Seq<char>>,
    data1: Seq<Seq<char>>,
    data2: Seq<Seq<char>>,
)
    requires
        system1.len() == system2.len(),
        forall|i: int| 0 <= i < system1.len() ==> same_ignoring_case(system1[i], system2[i]),
        data1.len() == data2.len(),
        forall|i: int| 0 <= i < data1.len() ==> same_ignoring_case(data1[i], data2[i]),
    ensures
        index_map(system1, PROFILE_FILE_NAME_PREFIX@).dom() == index_map(
            system2,
            PROFILE_FILE_NAME_PREFIX@,
        ).dom(),
        index_map(data1, DATA_FILE_NAME_PREFIX@).dom() == index_map(
            data2,
            DATA_FILE_NAME_PREFIX@,
        ).dom(),
{
    reveal_strlit("PROF");
    reveal_strlit("DATA");
    assert(no_lower(PROFILE_FILE_NAME_PREFIX@));
    assert(no_lower(DATA_FILE_NAME_PREFIX@));
    lemma_index_map_ignores_case(system1, system2, PROFILE_FILE_NAME_PREFIX@);
    lemma_index_map_ignores_case(data1, data2, DATA_FILE_NAME_PREFIX@);
}

} // verus!
