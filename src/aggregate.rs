//! Many files at once: each file is parsed on its own, and a file that does not parse
//! is reported without disturbing the others.
use crate::country::Country;
use crate::event::Event;
use crate::focustree::FocusTreeBase;
use crate::lexer::Fault;
use crate::parser::{parse_config_file, parse_text, ParseError};
use crate::projection::{view_table, record_unknown};
use crate::table::Table;
use crate::value::{
    lemma_view_pairs_index, lemma_view_pairs_len, view_pairs, ConfigPair, ConfigValue, SpecPair,
    SpecValue,
};
use vstd::prelude::*;

verus! {

/// A file to parse: the name it is known by (its stem) and its text.
#[derive(Debug)]
pub struct SourceFile {
    pub name: String,
    pub text: String,
}

/// A file that did not parse, and why.
#[derive(Debug)]
pub struct Failure {
    pub name: String,
    pub error: ParseError,
}

/// What a set of files gave: an entry for each file name, and the files that failed.
#[derive(Debug)]
pub struct Catalog<T> {
    pub entries: Table<T>,
    pub failures: Vec<Failure>,
}

/// The pairs of a file that parses to at least one pair.
pub open spec fn kept_pairs(f: SourceFile) -> Option<Seq<SpecPair>> {
    match parse_text(f.text@) {
        Ok(ps) => if ps.len() > 0 {
            Some(ps)
        } else {
            None
        },
        Err(_) => None,
    }
}

/// For each file name, the pairs of the last file of that name that parses to at least
/// one pair.
pub open spec fn catalog_of(fs: Seq<SourceFile>) -> Map<Seq<char>, Seq<SpecPair>>
    decreases fs.len(),
{
    if fs.len() == 0 {
        Map::empty()
    } else {
        match kept_pairs(fs.last()) {
            Some(ps) => catalog_of(fs.drop_last()).insert(fs.last().name@, ps),
            None => catalog_of(fs.drop_last()),
        }
    }
}

/// The files that do not parse, in order.
pub open spec fn failed_files(fs: Seq<SourceFile>) -> Seq<SourceFile>
    decreases fs.len(),
{
    if fs.len() == 0 {
        Seq::empty()
    } else if parse_text(fs.last().text@) is Err {
        failed_files(fs.drop_last()).push(fs.last())
    } else {
        failed_files(fs.drop_last())
    }
}

/// Each failure names a failed file, in order, with the error of its text.
pub open spec fn reports(failures: Seq<Failure>, fs: Seq<SourceFile>) -> bool {
    let bad = failed_files(fs);
    &&& failures.len() == bad.len()
    &&& forall|k: int|
        0 <= k < failures.len() ==> {
            &&& (#[trigger] failures[k]).name@ == bad[k].name@
            &&& parse_text(bad[k].text@) == Err::<Seq<SpecPair>, Fault>(
                Fault { offset: failures[k].error.offset, expected: failures[k].error.expected },
            )
        }
}

/// The pairs of each entry of a table of pair lists.
pub open spec fn view_pair_table(t: Table<Vec<ConfigPair>>) -> Map<Seq<char>, Seq<SpecPair>> {
    t@.map_values(|v: Vec<ConfigPair>| view_pairs(v@))
}

proof fn lemma_files_step(fs: Seq<SourceFile>, i: int)
    requires
        0 <= i < fs.len(),
    ensures
        fs.subrange(0, i + 1).drop_last() == fs.subrange(0, i),
        fs.subrange(0, i + 1).last() == fs[i],
        fs.subrange(0, i + 1).len() > 0,
{
    assert(fs.subrange(0, i + 1).drop_last() =~= fs.subrange(0, i));
}

fn report(
    failures: &mut Vec<Failure>,
    f: &SourceFile,
    error: ParseError,
    Ghost(fs): Ghost<Seq<SourceFile>>,
)
    requires
        fs.len() > 0,
        fs.last() == *f,
        reports(old(failures)@, fs.drop_last()),
        parse_text(f.text@) == Err::<Seq<SpecPair>, Fault>(
            Fault { offset: error.offset, expected: error.expected },
        ),
    ensures
        reports(final(failures)@, fs),
{
    failures.push(Failure { name: f.name.clone(), error });
}

/// Parses every file. A file that parses to no pair is left out; a later file of the
/// same name replaces an earlier one.
pub fn parse_game(files: &Vec<SourceFile>) -> (r: Catalog<Vec<ConfigPair>>)
    ensures
        view_pair_table(r.entries) == catalog_of(files@),
        reports(r.failures@, files@),
{
    let mut entries: Table<Vec<ConfigPair>> = Table::new();
    let mut failures: Vec<Failure> = Vec::new();
    let mut i: usize = 0;
    proof {
        assert(files@.subrange(0, 0) =~= Seq::<SourceFile>::empty());
        assert(view_pair_table(entries) =~= Map::<Seq<char>, Seq<SpecPair>>::empty());
    }
    while i < files.len()
        invariant
            i <= files@.len(),
            view_pair_table(entries) == catalog_of(files@.subrange(0, i as int)),
            reports(failures@, files@.subrange(0, i as int)),
        decreases files.len() - i,
    {
        let f = &files[i];
        proof {
            lemma_files_step(files@, i as int);
        }
        match parse_config_file(f.text.as_str()) {
            Ok(ps) => {
                if ps.len() > 0 {
                    let ghost before = view_pair_table(entries);
                    proof {
                        lemma_view_pairs_len(ps@);
                    }
                    entries.insert(f.name.clone(), ps);
                    assert(view_pair_table(entries) =~= before.insert(f.name@, view_pairs(ps@)));
                } else {
                    proof {
                        lemma_view_pairs_len(ps@);
                    }
                }
            },
            Err(e) => {
                report(&mut failures, f, e, Ghost(files@.subrange(0, i + 1)));
            },
        }
        i = i + 1;
    }
    assert(files@.subrange(0, files@.len() as int) =~= files@);
    Catalog { entries, failures }
}


/// Each entry is the country that the pairs of its file describe.
pub open spec fn country_catalog(t: Table<Country>, m: Map<Seq<char>, Seq<SpecPair>>) -> bool {
    &&& t@.dom() == m.dom()
    &&& forall|k: Seq<char>| m.contains_key(k) ==> (#[trigger] t@[k]).projects(m[k])
}

/// Parses every file and projects it into a country. A file that parses to no
/// pair is left out; a later file of the same name replaces an earlier one.
pub fn parse_countries(files: &Vec<SourceFile>) -> (r: Catalog<Country>)
    ensures
        country_catalog(r.entries, catalog_of(files@)),
        reports(r.failures@, files@),
{
    let mut entries: Table<Country> = Table::new();
    let mut failures: Vec<Failure> = Vec::new();
    let mut i: usize = 0;
    proof {
        assert(files@.subrange(0, 0) =~= Seq::<SourceFile>::empty());
        assert(entries@.dom() =~= Set::<Seq<char>>::empty());
    }
    while i < files.len()
        invariant
            i <= files@.len(),
            country_catalog(entries, catalog_of(files@.subrange(0, i as int))),
            reports(failures@, files@.subrange(0, i as int)),
        decreases files.len() - i,
    {
        let f = &files[i];
        proof {
            lemma_files_step(files@, i as int);
        }
        match parse_config_file(f.text.as_str()) {
            Ok(ps) => {
                proof {
                    lemma_view_pairs_len(ps@);
                }
                if ps.len() > 0 {
                    let ghost before = catalog_of(files@.subrange(0, i as int));
                    let x = Country::new(&ps);
                    entries.insert(f.name.clone(), x);
                    assert(entries@.dom() =~= before.insert(f.name@, view_pairs(ps@)).dom());
                }
            },
            Err(e) => {
                report(&mut failures, f, e, Ghost(files@.subrange(0, i + 1)));
            },
        }
        i = i + 1;
    }
    assert(files@.subrange(0, files@.len() as int) =~= files@);
    Catalog { entries, failures }
}

/// Each entry is the event record that the pairs of its file describe.
pub open spec fn event_catalog(t: Table<Event>, m: Map<Seq<char>, Seq<SpecPair>>) -> bool {
    &&& t@.dom() == m.dom()
    &&& forall|k: Seq<char>| m.contains_key(k) ==> (#[trigger] t@[k]).projects(m[k])
}

/// Parses every file and projects it into an event record. A file that parses to no
/// pair is left out; a later file of the same name replaces an earlier one.
pub fn parse_events(files: &Vec<SourceFile>) -> (r: Catalog<Event>)
    ensures
        event_catalog(r.entries, catalog_of(files@)),
        reports(r.failures@, files@),
{
    let mut entries: Table<Event> = Table::new();
    let mut failures: Vec<Failure> = Vec::new();
    let mut i: usize = 0;
    proof {
        assert(files@.subrange(0, 0) =~= Seq::<SourceFile>::empty());
        assert(entries@.dom() =~= Set::<Seq<char>>::empty());
    }
    while i < files.len()
        invariant
            i <= files@.len(),
            event_catalog(entries, catalog_of(files@.subrange(0, i as int))),
            reports(failures@, files@.subrange(0, i as int)),
        decreases files.len() - i,
    {
        let f = &files[i];
        proof {
            lemma_files_step(files@, i as int);
        }
        match parse_config_file(f.text.as_str()) {
            Ok(ps) => {
                proof {
                    lemma_view_pairs_len(ps@);
                }
                if ps.len() > 0 {
                    let ghost before = catalog_of(files@.subrange(0, i as int));
                    let x = Event::new(&ps);
                    entries.insert(f.name.clone(), x);
                    assert(entries@.dom() =~= before.insert(f.name@, view_pairs(ps@)).dom());
                }
            },
            Err(e) => {
                report(&mut failures, f, e, Ghost(files@.subrange(0, i + 1)));
            },
        }
        i = i + 1;
    }
    assert(files@.subrange(0, files@.len() as int) =~= files@);
    Catalog { entries, failures }
}

/// Each entry is the focus tree that the pairs of its file describe.
pub open spec fn focus_tree_catalog(
    t: Table<FocusTreeBase>,
    m: Map<Seq<char>, Seq<SpecPair>>,
) -> bool {
    &&& t@.dom() == m.dom()
    &&& forall|k: Seq<char>| m.contains_key(k) ==> (#[trigger] t@[k]).projects(m[k])
}

/// Parses every file and projects it into a focus tree. A file that parses to no
/// pair is left out; a later file of the same name replaces an earlier one.
pub fn parse_focustrees(files: &Vec<SourceFile>) -> (r: Catalog<FocusTreeBase>)
    ensures
        focus_tree_catalog(r.entries, catalog_of(files@)),
        reports(r.failures@, files@),
{
    let mut entries: Table<FocusTreeBase> = Table::new();
    let mut failures: Vec<Failure> = Vec::new();
    let mut i: usize = 0;
    proof {
        assert(files@.subrange(0, 0) =~= Seq::<SourceFile>::empty());
        assert(entries@.dom() =~= Set::<Seq<char>>::empty());
    }
    while i < files.len()
        invariant
            i <= files@.len(),
            focus_tree_catalog(entries, catalog_of(files@.subrange(0, i as int))),
            reports(failures@, files@.subrange(0, i as int)),
        decreases files.len() - i,
    {
        let f = &files[i];
        proof {
            lemma_files_step(files@, i as int);
        }
        match parse_config_file(f.text.as_str()) {
            Ok(ps) => {
                proof {
                    lemma_view_pairs_len(ps@);
                }
                if ps.len() > 0 {
                    let ghost before = catalog_of(files@.subrange(0, i as int));
                    let x = FocusTreeBase::new(&ps);
                    entries.insert(f.name.clone(), x);
                    assert(entries@.dom() =~= before.insert(f.name@, view_pairs(ps@)).dom());
                }
            },
            Err(e) => {
                report(&mut failures, f, e, Ghost(files@.subrange(0, i + 1)));
            },
        }
        i = i + 1;
    }
    assert(files@.subrange(0, files@.len() as int) =~= files@);
    Catalog { entries, failures }
}


/// The records of a Hearts of Iron IV installation.
#[derive(Debug)]
pub struct Hoi4 {
    pub countries: Table<Country>,
    pub events: Table<Event>,
    pub focustree: Table<FocusTreeBase>,
    pub failures: Vec<Failure>,
}

/// Projects the country history files; events and focus trees stay empty.
pub fn parse_hoi4(country_files: &Vec<SourceFile>) -> (r: Hoi4)
    ensures
        country_catalog(r.countries, catalog_of(country_files@)),
        r.events@ == Map::<Seq<char>, Event>::empty(),
        r.focustree@ == Map::<Seq<char>, FocusTreeBase>::empty(),
        reports(r.failures@, country_files@),
{
    let c = parse_countries(country_files);
    Hoi4 {
        countries: c.entries,
        events: Table::new(),
        focustree: Table::new(),
        failures: c.failures,
    }
}

/// `m` with the pairs `ps` stored in order, a later pair replacing an earlier one.
pub open spec fn insert_pairs(m: Map<Seq<char>, SpecValue>, ps: Seq<SpecPair>) -> Map<
    Seq<char>,
    SpecValue,
>
    decreases ps.len(),
{
    if ps.len() == 0 {
        m
    } else {
        insert_pairs(m, ps.drop_last()).insert(ps.last().identifier, ps.last().value)
    }
}

/// Every top-level pair of every file that parses, a later one replacing an earlier one
/// of the same identifier.
pub open spec fn variables_of(fs: Seq<SourceFile>) -> Map<Seq<char>, SpecValue>
    decreases fs.len(),
{
    if fs.len() == 0 {
        Map::empty()
    } else {
        match parse_text(fs.last().text@) {
            Ok(ps) => insert_pairs(variables_of(fs.drop_last()), ps),
            Err(_) => variables_of(fs.drop_last()),
        }
    }
}

/// Collects the top-level pairs of all files into one table of variables.
pub fn parse_variables(files: &Vec<SourceFile>) -> (r: Catalog<ConfigValue>)
    ensures
        view_table(r.entries) == variables_of(files@),
        reports(r.failures@, files@),
{
    let mut entries: Table<ConfigValue> = Table::new();
    let mut failures: Vec<Failure> = Vec::new();
    let mut i: usize = 0;
    proof {
        assert(files@.subrange(0, 0) =~= Seq::<SourceFile>::empty());
        assert(view_table(entries) =~= Map::<Seq<char>, SpecValue>::empty());
    }
    while i < files.len()
        invariant
            i <= files@.len(),
            view_table(entries) == variables_of(files@.subrange(0, i as int)),
            reports(failures@, files@.subrange(0, i as int)),
        decreases files.len() - i,
    {
        let f = &files[i];
        proof {
            lemma_files_step(files@, i as int);
        }
        match parse_config_file(f.text.as_str()) {
            Ok(ps) => {
                let ghost base = view_table(entries);
                let ghost sps = view_pairs(ps@);
                proof {
                    lemma_view_pairs_len(ps@);
                    assert(sps.subrange(0, 0) =~= Seq::<SpecPair>::empty());
                }
                let mut j: usize = 0;
                while j < ps.len()
                    invariant
                        sps == view_pairs(ps@),
                        sps.len() == ps@.len(),
                        j <= ps@.len(),
                        view_table(entries) == insert_pairs(base, sps.subrange(0, j as int)),
                    decreases ps.len() - j,
                {
                    proof {
                        lemma_view_pairs_index(ps@, j as int);
                        assert(sps.subrange(0, j + 1).drop_last() =~= sps.subrange(0, j as int));
                    }
                    record_unknown(&mut entries, &ps[j]);
                    j = j + 1;
                }
                assert(sps.subrange(0, sps.len() as int) =~= sps);
            },
            Err(e) => {
                report(&mut failures, f, e, Ghost(files@.subrange(0, i + 1)));
            },
        }
        i = i + 1;
    }
    assert(files@.subrange(0, files@.len() as int) =~= files@);
    Catalog { entries, failures }
}

/// The scripted variables of a Stellaris installation.
#[derive(Debug)]
pub struct Stellaris {
    pub variables: Table<ConfigValue>,
    pub failures: Vec<Failure>,
}

/// Collects the scripted variables of the given files.
pub fn parse_stellaris(variable_files: &Vec<SourceFile>) -> (r: Stellaris)
    ensures
        view_table(r.variables) == variables_of(variable_files@),
        reports(r.failures@, variable_files@),
{
    let c = parse_variables(variable_files);
    Stellaris { variables: c.entries, failures: c.failures }
}

/// A file that does not parse contributes nothing: the entries are the same without it.
pub proof fn lemma_failed_file_contributes_nothing(fs: Seq<SourceFile>, i: int)
    requires
        0 <= i < fs.len(),
        parse_text(fs[i].text@) is Err,
    ensures
        catalog_of(fs.remove(i)) == catalog_of(fs),
        variables_of(fs.remove(i)) == variables_of(fs),
    decreases fs.len(),
{
    if i == fs.len() - 1 {
        assert(fs.remove(i) =~= fs.drop_last());
    } else {
        assert(fs.remove(i).drop_last() =~= fs.drop_last().remove(i));
        assert(fs.remove(i).last() == fs.last());
        lemma_failed_file_contributes_nothing(fs.drop_last(), i);
    }
}

} // verus!
