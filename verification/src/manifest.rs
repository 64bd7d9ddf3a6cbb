//! The dependency sections of a package manifest, and how chosen updates
//! are written back into them.

use vstd::prelude::*;
use vstd::string::StringExecFns;
use crate::constraint::{prefix_of, Constraint};
use crate::pool::{DependencyRequest, RequestModel, Section};
use crate::text::{
    after_arrow, after_last, before_arrow, before_first, find_first, find_first_arrow,
    find_last_arrow_end, find_last_end, remove_char, same_text, trim, trimmed, without,
};
use crate::utils::{ansi_stripped, strip_ansi};

verus! {

/// The name under which a manifest is looked for where no path is given.
pub const DEFAULT_PATH: &'static str = "package.json";

/// The two dependency sections of a manifest: for each, the names with
/// their declared constraints, in the order of the file. `None` stands for
/// a section that the file does not have.
#[derive(Clone, Debug, PartialEq, Eq)]
pub struct PackageJson {
    pub dependencies: Option<Vec<(String, String)>>,
    pub dev_dependencies: Option<Vec<(String, String)>>,
}

/// The mathematical value of a section: pairs of name and constraint.
pub type SectionModel = Seq<(Seq<char>, Seq<char>)>;

/// The mathematical value of a [`PackageJson`].
pub struct ManifestModel {
    pub dependencies: Option<SectionModel>,
    pub dev_dependencies: Option<SectionModel>,
}

/// The value of a run of pairs.
pub open spec fn pair_models(entries: Seq<(String, String)>) -> SectionModel {
    entries.map_values(|e: (String, String)| (e.0@, e.1@))
}

/// The value of a section.
pub open spec fn section_model(section: Option<Vec<(String, String)>>) -> Option<SectionModel> {
    match section {
        Some(entries) => Some(pair_models(entries@)),
        None => None,
    }
}

impl View for PackageJson {
    type V = ManifestModel;

    open spec fn view(&self) -> ManifestModel {
        ManifestModel {
            dependencies: section_model(self.dependencies),
            dev_dependencies: section_model(self.dev_dependencies),
        }
    }
}

/// An update that was chosen: the package, the version it was declared
/// with, and the version it is to have.
#[derive(Clone, Debug, PartialEq, Eq)]
pub struct Selection {
    pub name: String,
    pub old_version: String,
    pub latest_version: String,
}

/// The mathematical value of a [`Selection`].
pub struct SelectionModel {
    pub name: Seq<char>,
    pub old_version: Seq<char>,
    pub latest_version: Seq<char>,
}

impl View for Selection {
    type V = SelectionModel;

    open spec fn view(&self) -> SelectionModel {
        SelectionModel {
            name: self.name@,
            old_version: self.old_version@,
            latest_version: self.latest_version@,
        }
    }
}

/// What a label `name(old -> latest)` says. The name is what stands before
/// the first `(`. The old version stands behind the last `(` and before the
/// `->` that follows, without quotation marks. The latest version stands
/// behind the last `->`, without `)` and without white space at its ends.
pub open spec fn selection_of(label: Seq<char>) -> SelectionModel {
    SelectionModel {
        name: before_first(label, '('),
        old_version: without(before_arrow(after_last(label, '(')), '"'),
        latest_version: trimmed(without(after_arrow(label), ')')),
    }
}

/// Reads a label that holds no escape sequences.
pub fn split_label(label: &str) -> (selection: Selection)
    ensures
        selection@ == selection_of(label@),
{
    let n: usize = label.unicode_len();
    let name = label.substring_char(0, find_first(label, '('));
    let rest = label.substring_char(find_last_end(label, '('), n);
    let old = rest.substring_char(0, find_first_arrow(rest));
    let old_version = remove_char(old, '"');
    let tail = label.substring_char(find_last_arrow_end(label), n);
    let unclosed = remove_char(tail, ')');
    let latest = trim(unclosed.as_str());
    Selection {
        name: String::from_str(name),
        old_version,
        latest_version: String::from_str(latest),
    }
}

/// Reads a label as it was shown for choosing: the escape sequences are
/// removed, then the text is read by [`split_label`].
pub fn parse_selection(label: &str) -> (selection: Selection)
    ensures
        selection@ == selection_of(ansi_stripped(label@)),
{
    let clean = strip_ansi(label);
    split_label(clean.as_str())
}

/// Whether a section declares `name`.
pub open spec fn declares(entries: SectionModel, name: Seq<char>) -> bool {
    exists|i: int| 0 <= i < entries.len() && (#[trigger] entries[i]).0 == name
}

/// The constraint that asks for `latest` with the operator of `current`.
pub open spec fn bumped(current: Seq<char>, latest: Seq<char>) -> Seq<char> {
    prefix_of(current).symbol() + latest
}

/// The section with the constraint of `name` bumped to `latest`. Every
/// other pair stays, and so does the order.
pub open spec fn rewritten(entries: SectionModel, name: Seq<char>, latest: Seq<char>) -> SectionModel {
    entries.map_values(
        |e: (Seq<char>, Seq<char>)|
            if e.0 == name {
                (e.0, bumped(e.1, latest))
            } else {
                e
            },
    )
}

/// Whether an optional section declares `name`.
pub open spec fn section_declares(section: Option<SectionModel>, name: Seq<char>) -> bool {
    match section {
        Some(entries) => declares(entries, name),
        None => false,
    }
}

/// The manifest after one update: the package is bumped in `dependencies`
/// where it is declared there, else in `devDependencies` where it is
/// declared there, else nothing changes.
pub open spec fn updated(manifest: ManifestModel, name: Seq<char>, latest: Seq<char>) -> ManifestModel {
    if section_declares(manifest.dependencies, name) {
        ManifestModel {
            dependencies: Some(rewritten(manifest.dependencies.unwrap(), name, latest)),
            ..manifest
        }
    } else if section_declares(manifest.dev_dependencies, name) {
        ManifestModel {
            dev_dependencies: Some(rewritten(manifest.dev_dependencies.unwrap(), name, latest)),
            ..manifest
        }
    } else {
        manifest
    }
}

/// The manifest after the updates, one after the other.
pub open spec fn updated_all(manifest: ManifestModel, selections: Seq<SelectionModel>) -> ManifestModel
    decreases selections.len(),
{
    if selections.len() == 0 {
        manifest
    } else {
        updated(
            updated_all(manifest, selections.drop_last()),
            selections.last().name,
            selections.last().latest_version,
        )
    }
}

/// The requests that a section asks for.
pub open spec fn section_requests(entries: SectionModel, section: Section) -> Seq<RequestModel> {
    entries.map_values(
        |e: (Seq<char>, Seq<char>)|
            RequestModel { name: e.0, declared_constraint: e.1, section },
    )
}

/// The entries of an optional section.
pub open spec fn entries_of(section: Option<SectionModel>) -> SectionModel {
    match section {
        Some(entries) => entries,
        None => Seq::empty(),
    }
}

/// The requests that a manifest asks for: those of `dependencies`, then
/// those of `devDependencies`.
pub open spec fn requests_of(manifest: ManifestModel) -> Seq<RequestModel> {
    section_requests(entries_of(manifest.dependencies), Section::Dependencies) + section_requests(
        entries_of(manifest.dev_dependencies),
        Section::DevDependencies,
    )
}

fn has_name(entries: &Vec<(String, String)>, name: &str) -> (r: bool)
    ensures
        r == declares(pair_models(entries@), name@),
{
    let mut i: usize = 0;
    while i < entries.len()
        invariant
            i <= entries.len(),
            forall|j: int| 0 <= j < i ==> pair_models(entries@)[j].0 != name@,
        decreases entries.len() - i,
    {
        if same_text(entries[i].0.as_str(), name) {
            assert(pair_models(entries@)[i as int].0 == name@);
            return true;
        }
        i += 1;
    }
    false
}

fn rewrite(entries: &Vec<(String, String)>, name: &str, latest: &str) -> (out: Vec<(String, String)>)
    ensures
        pair_models(out@) == rewritten(pair_models(entries@), name@, latest@),
{
    let mut out: Vec<(String, String)> = Vec::new();
    let mut i: usize = 0;
    while i < entries.len()
        invariant
            i <= entries.len(),
            out.len() == i,
            forall|j: int|
                0 <= j < i ==> pair_models(out@)[j] == rewritten(
                    pair_models(entries@),
                    name@,
                    latest@,
                )[j],
        decreases entries.len() - i,
    {
        let entry = &entries[i];
        let ghost before = out@;
        if same_text(entry.0.as_str(), name) {
            let constraint = Constraint::parse(entry.1.as_str());
            out.push((entry.0.clone(), constraint.rewritten(latest)));
        } else {
            out.push((entry.0.clone(), entry.1.clone()));
        }
        assert forall|j: int| 0 <= j < i + 1 implies pair_models(out@)[j] == rewritten(
            pair_models(entries@),
            name@,
            latest@,
        )[j] by {
            if j < i {
                assert(pair_models(out@)[j] == pair_models(before)[j]);
            }
        }
        i += 1;
    }
    assert(pair_models(out@) =~= rewritten(pair_models(entries@), name@, latest@));
    out
}

fn push_requests(out: &mut Vec<DependencyRequest>, entries: &Vec<(String, String)>, section: Section)
    ensures
        crate::pool::request_models(final(out)@) == crate::pool::request_models(old(out)@)
            + section_requests(pair_models(entries@), section),
{
    let ghost start = crate::pool::request_models(out@);
    let ghost wanted = section_requests(pair_models(entries@), section);
    let mut i: usize = 0;
    while i < entries.len()
        invariant
            i <= entries.len(),
            start == crate::pool::request_models(old(out)@),
            wanted == section_requests(pair_models(entries@), section),
            crate::pool::request_models(out@) == start + wanted.take(i as int),
        decreases entries.len() - i,
    {
        let ghost before = out@;
        out.push(
            DependencyRequest {
                name: entries[i].0.clone(),
                declared_constraint: entries[i].1.clone(),
                section,
            },
        );
        assert(crate::pool::request_models(out@) =~= crate::pool::request_models(before).push(
            wanted[i as int],
        ));
        assert(wanted.take(i + 1) =~= wanted.take(i as int).push(wanted[i as int]));
        assert(start + wanted.take(i + 1) =~= (start + wanted.take(i as int)).push(
            wanted[i as int],
        ));
        i += 1;
    }
    assert(wanted.take(entries.len() as int) =~= wanted);
}

/// The pairs of `after` that differ from the pair at the same place in
/// `before`, in their order. A pair of `after` beyond the end of `before`
/// counts as different.
pub open spec fn changed_pairs(before: SectionModel, after: SectionModel) -> SectionModel
    decreases after.len(),
{
    if after.len() == 0 {
        Seq::empty()
    } else {
        let last = after.len() - 1;
        let earlier = changed_pairs(before, after.drop_last());
        if last < before.len() && before[last] == after[last] {
            earlier
        } else {
            earlier.push(after[last])
        }
    }
}

/// The changed pairs of an optional section; none where `after` has no
/// such section.
pub open spec fn changed_section(before: Option<SectionModel>, after: Option<SectionModel>) -> Option<
    SectionModel,
> {
    match after {
        Some(entries) => Some(changed_pairs(entries_of(before), entries)),
        None => None,
    }
}

fn changed(before: &Vec<(String, String)>, after: &Vec<(String, String)>) -> (out: Vec<
    (String, String),
>)
    ensures
        pair_models(out@) == changed_pairs(pair_models(before@), pair_models(after@)),
{
    let ghost old_pairs = pair_models(before@);
    let ghost new_pairs = pair_models(after@);
    let mut out: Vec<(String, String)> = Vec::new();
    let mut i: usize = 0;
    assert(new_pairs.take(0) =~= Seq::<(Seq<char>, Seq<char>)>::empty());
    assert(pair_models(out@) =~= changed_pairs(old_pairs, new_pairs.take(0)));
    while i < after.len()
        invariant
            i <= after.len(),
            old_pairs == pair_models(before@),
            new_pairs == pair_models(after@),
            pair_models(out@) == changed_pairs(old_pairs, new_pairs.take(i as int)),
        decreases after.len() - i,
    {
        proof {
            assert(new_pairs.take(i + 1).drop_last() =~= new_pairs.take(i as int));
            assert(new_pairs.take(i + 1)[i as int] == new_pairs[i as int]);
        }
        let same = i < before.len() && same_text(before[i].0.as_str(), after[i].0.as_str())
            && same_text(before[i].1.as_str(), after[i].1.as_str());
        if !same {
            let ghost so_far = out@;
            out.push((after[i].0.clone(), after[i].1.clone()));
            assert(pair_models(out@) =~= pair_models(so_far).push(new_pairs[i as int]));
        }
        i += 1;
    }
    assert(new_pairs.take(after.len() as int) =~= new_pairs);
    out
}

impl PackageJson {
    /// The lookups that the manifest asks for, in the order of the file:
    /// `dependencies` first.
    pub fn requests(&self) -> (requests: Vec<DependencyRequest>)
        ensures
            crate::pool::request_models(requests@) == requests_of(self@),
    {
        let mut requests: Vec<DependencyRequest> = Vec::new();
        assert(crate::pool::request_models(requests@) =~= Seq::<RequestModel>::empty());
        match &self.dependencies {
            Some(entries) => {
                push_requests(&mut requests, entries, Section::Dependencies);
            },
            None => {
                assert(section_requests(Seq::empty(), Section::Dependencies) =~= Seq::<
                    RequestModel,
                >::empty());
            },
        }
        let ghost first = crate::pool::request_models(requests@);
        assert(first =~= section_requests(
            entries_of(self@.dependencies),
            Section::Dependencies,
        ));
        match &self.dev_dependencies {
            Some(entries) => {
                push_requests(&mut requests, entries, Section::DevDependencies);
            },
            None => {
                assert(section_requests(Seq::empty(), Section::DevDependencies) =~= Seq::<
                    RequestModel,
                >::empty());
            },
        }
        assert(crate::pool::request_models(requests@) =~= requests_of(self@));
        requests
    }

    /// What has changed since `before`: for each section, the pairs that
    /// differ from the pair at the same place in `before`.
    pub fn changes_since(&self, before: &PackageJson) -> (changes: PackageJson)
        ensures
            changes@ == (ManifestModel {
                dependencies: changed_section(before@.dependencies, self@.dependencies),
                dev_dependencies: changed_section(
                    before@.dev_dependencies,
                    self@.dev_dependencies,
                ),
            }),
    {
        let none: Vec<(String, String)> = Vec::new();
        assert(pair_models(none@) =~= Seq::<(Seq<char>, Seq<char>)>::empty());
        let dependencies = match &self.dependencies {
            Some(after) => match &before.dependencies {
                Some(earlier) => Some(changed(earlier, after)),
                None => Some(changed(&none, after)),
            },
            None => None,
        };
        let dev_dependencies = match &self.dev_dependencies {
            Some(after) => match &before.dev_dependencies {
                Some(earlier) => Some(changed(earlier, after)),
                None => Some(changed(&none, after)),
            },
            None => None,
        };
        PackageJson { dependencies, dev_dependencies }
    }

    /// Bumps `name` to `latest`, keeping the operator of its constraint.
    pub fn update(&mut self, name: &str, latest: &str)
        ensures
            final(self)@ == updated(old(self)@, name@, latest@),
    {
        let in_dependencies = match &self.dependencies {
            Some(entries) => has_name(entries, name),
            None => false,
        };
        if in_dependencies {
            let bumped = match &self.dependencies {
                Some(entries) => Some(rewrite(entries, name, latest)),
                None => None,
            };
            self.dependencies = bumped;
            return;
        }
        let in_dev_dependencies = match &self.dev_dependencies {
            Some(entries) => has_name(entries, name),
            None => false,
        };
        if in_dev_dependencies {
            let bumped = match &self.dev_dependencies {
                Some(entries) => Some(rewrite(entries, name, latest)),
                None => None,
            };
            self.dev_dependencies = bumped;
        }
    }

    /// Applies the chosen updates, one after the other.
    pub fn apply_selections(&mut self, selections: &Vec<Selection>)
        ensures
            final(self)@ == updated_all(
                old(self)@,
                selections@.map_values(|s: Selection| s@),
            ),
    {
        let ghost chosen = selections@.map_values(|s: Selection| s@);
        let mut i: usize = 0;
        assert(chosen.take(0) =~= Seq::<SelectionModel>::empty());
        while i < selections.len()
            invariant
                i <= selections.len(),
                chosen == selections@.map_values(|s: Selection| s@),
                self@ == updated_all(old(self)@, chosen.take(i as int)),
            decreases selections.len() - i,
        {
            proof {
                assert(chosen.take(i + 1).drop_last() =~= chosen.take(i as int));
            }
            self.update(selections[i].name.as_str(), selections[i].latest_version.as_str());
            i += 1;
        }
        assert(chosen.take(selections.len() as int) =~= chosen);
    }

    /// Writes the updates that were chosen into the manifest. Each label
    /// is read by [`parse_selection`], and the package it names gets the
    /// latest version behind the operator that its constraint has.
    pub fn update_dependencies_version(&mut self, dependencies: &Vec<String>)
        ensures
            final(self)@ == updated_all(
                old(self)@,
                dependencies@.map_values(|l: String| selection_of(ansi_stripped(l@))),
            ),
    {
        let ghost chosen = dependencies@.map_values(|l: String| selection_of(ansi_stripped(l@)));
        let mut i: usize = 0;
        assert(chosen.take(0) =~= Seq::<SelectionModel>::empty());
        while i < dependencies.len()
            invariant
                i <= dependencies.len(),
                chosen == dependencies@.map_values(|l: String| selection_of(ansi_stripped(l@))),
                self@ == updated_all(old(self)@, chosen.take(i as int)),
            decreases dependencies.len() - i,
        {
            proof {
                assert(chosen.take(i + 1).drop_last() =~= chosen.take(i as int));
            }
            let selection = parse_selection(dependencies[i].as_str());
            self.update(selection.name.as_str(), selection.latest_version.as_str());
            i += 1;
        }
        assert(chosen.take(dependencies.len() as int) =~= chosen);
    }
}

/// The name of the project that a manifest belongs to: for the default
/// path the name of the current directory, else what stands before the
/// first `/` of the path.
pub open spec fn root_name_of(file_path: Seq<char>, current_dir: Seq<char>) -> Seq<char> {
    if file_path == DEFAULT_PATH@ {
        current_dir
    } else {
        before_first(file_path, '/')
    }
}

/// The name of the project that the manifest at `file_path` belongs to.
pub fn root_name(file_path: &str, current_dir: &str) -> (name: String)
    ensures
        name@ == root_name_of(file_path@, current_dir@),
{
    if same_text(file_path, DEFAULT_PATH) {
        String::from_str(current_dir)
    } else {
        String::from_str(file_path.substring_char(0, find_first(file_path, '/')))
    }
}

} // verus!
