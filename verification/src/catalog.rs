//! The catalog: the applications that a scan of the application directories
//! finds, in catalog order.

use crate::application::{Application, ApplicationView};
use crate::parser::{parse_desktop_file, parsed_file, Rejected};
use crate::text::{
    in_order, lemma_in_order_antisymmetric, lemma_in_order_total, lemma_in_order_transitive,
    lowercase, lowercase_chars, ordered,
};
use vstd::prelude::*;
use vstd::string::*;

verus! {

/// The text by which the catalog is ordered: the name in lowercase.
pub open spec fn sort_key(application: ApplicationView) -> Seq<char> {
    lowercase(application.name)
}

/// Whether a catalog is in order: by name, without regard to case.
pub open spec fn is_sorted(catalog: Seq<ApplicationView>) -> bool {
    forall|i: int, j: int|
        0 <= i <= j < catalog.len() ==> in_order(
            sort_key(#[trigger] catalog[i]),
            sort_key(#[trigger] catalog[j]),
        )
}

/// Whether `origin` points at the place `source` somewhere.
pub open spec fn takes(origin: Seq<int>, source: int) -> bool {
    exists|i: int| 0 <= i < origin.len() && #[trigger] origin[i] == source
}

/// Whether `origin` tells, for each place of `catalog`, the place in `found`
/// that its record comes from: each record of `found` is taken once, and
/// records with the same key stand in the order in which they were found.
pub open spec fn is_stable_arrangement(
    origin: Seq<int>,
    found: Seq<ApplicationView>,
    catalog: Seq<ApplicationView>,
) -> bool {
    &&& origin.len() == catalog.len()
    &&& found.len() == catalog.len()
    &&& forall|i: int|
        0 <= i < catalog.len() ==> 0 <= #[trigger] origin[i] < found.len() && catalog[i]
            == found[origin[i]]
    &&& forall|i: int, j: int|
        0 <= i < j < catalog.len() ==> #[trigger] origin[i] != #[trigger] origin[j]
    &&& forall|source: int| 0 <= source < found.len() ==> #[trigger] takes(origin, source)
    &&& forall|i: int, j: int|
        0 <= i < j < catalog.len() && sort_key(catalog[i]) == sort_key(catalog[j])
            ==> #[trigger] origin[i] < #[trigger] origin[j]
}

/// Whether `catalog` is the catalog of the records `found`: the same
/// records, ordered by name without regard to case, with ties left in the
/// order of discovery.
pub open spec fn is_catalog_of(catalog: Seq<ApplicationView>, found: Seq<ApplicationView>) -> bool {
    &&& is_sorted(catalog)
    &&& exists|origin: Seq<int>| is_stable_arrangement(origin, found, catalog)
}

/// The records in catalog order: by name without regard to case, ties in the
/// order given.
pub fn sort_applications(found: &Vec<Application>) -> (catalog: Vec<Application>)
    ensures
        is_catalog_of(catalog.deep_view(), found.deep_view()),
{
    let mut catalog: Vec<Application> = Vec::new();
    let mut keys: Vec<Vec<char>> = Vec::new();
    let ghost mut origin: Seq<int> = Seq::empty();
    let mut k: usize = 0;
    while k < found.len()
        invariant
            k <= found.len(),
            catalog.len() == k,
            keys.len() == k,
            origin.len() == k,
            forall|i: int| 0 <= i < k ==> (#[trigger] keys@[i])@ == sort_key(catalog@[i]@),
            is_sorted(catalog.deep_view()),
            forall|i: int|
                0 <= i < k ==> 0 <= #[trigger] origin[i] < k && catalog@[i]@ == found@[origin[i]]@,
            forall|i: int, j: int| 0 <= i < j < k ==> #[trigger] origin[i] != #[trigger] origin[j],
            forall|source: int| 0 <= source < k ==> #[trigger] takes(origin, source),
            forall|i: int, j: int|
                0 <= i < j < k && sort_key(catalog@[i]@) == sort_key(catalog@[j]@)
                    ==> #[trigger] origin[i] < #[trigger] origin[j],
        decreases found.len() - k,
    {
        let application = found[k].clone();
        let key = lowercase_chars(application.name.as_str());
        let mut place: usize = k;
        while place > 0 && !ordered(&keys[place - 1], &key)
            invariant
                place <= k,
                keys.len() == k,
                forall|j: int| place <= j < k ==> !in_order((#[trigger] keys@[j])@, key@),
            decreases place,
        {
            place -= 1;
        }
        let ghost old_catalog = catalog@;
        let ghost old_views = catalog.deep_view();
        let ghost old_keys = keys@;
        let ghost old_origin = origin;
        let ghost entry = application@;
        catalog.insert(place, application);
        keys.insert(place, key);
        proof {
            origin = old_origin.insert(place as int, k as int);
            old_catalog.insert_ensures(place as int, catalog@[place as int]);
            old_keys.insert_ensures(place as int, keys@[place as int]);
            old_origin.insert_ensures(place as int, k as int);
            assert(catalog@[place as int]@ == entry);
            assert forall|i: int| 0 <= i < k + 1 implies (#[trigger] keys@[i])@ == sort_key(
                catalog@[i]@,
            ) by {
                if i > place {
                    assert(keys@[i] == old_keys[i - 1]);
                    assert(catalog@[i] == old_catalog[i - 1]);
                }
            }
            assert forall|i: int| 0 <= i < k + 1 implies 0 <= #[trigger] origin[i] < k + 1
                && catalog@[i]@ == found@[origin[i]]@ by {
                if i > place {
                    assert(origin[i] == old_origin[i - 1]);
                    assert(catalog@[i] == old_catalog[i - 1]);
                }
            }
            assert forall|i: int, j: int| 0 <= i < j < k + 1 implies #[trigger] origin[i]
                != #[trigger] origin[j] by {
                if i > place {
                    assert(origin[i] == old_origin[i - 1]);
                }
                if j > place {
                    assert(origin[j] == old_origin[j - 1]);
                }
            }
            assert forall|source: int| 0 <= source < k + 1 implies #[trigger] takes(
                origin,
                source,
            ) by {
                if source == k {
                    assert(origin[place as int] == source);
                } else {
                    assert(takes(old_origin, source));
                    let i = choose|i: int| 0 <= i < old_origin.len() && old_origin[i] == source;
                    if i < place {
                        assert(origin[i] == source);
                    } else {
                        assert(origin[i + 1] == source);
                    }
                }
            }
            assert forall|i: int| 0 <= i < place implies in_order(
                sort_key(#[trigger] old_catalog[i]@),
                key@,
            ) by {
                assert(in_order(old_keys[place - 1]@, key@));
                assert(old_views[i] == old_catalog[i]@);
                assert(old_views[place - 1] == old_catalog[place - 1]@);
                assert(in_order(sort_key(old_views[i]), sort_key(old_views[place - 1])));
                lemma_in_order_transitive(
                    sort_key(old_catalog[i]@),
                    old_keys[place - 1]@,
                    key@,
                );
            }
            assert forall|j: int| place <= j < k implies in_order(
                key@,
                sort_key(#[trigger] old_catalog[j]@),
            ) && key@ != sort_key(old_catalog[j]@) by {
                assert(!in_order(old_keys[j]@, key@));
                lemma_in_order_total(old_keys[j]@, key@);
                lemma_in_order_total(key@, key@);
            }
            let views = catalog.deep_view();
            assert forall|i: int, j: int| 0 <= i <= j < views.len() implies in_order(
                sort_key(#[trigger] views[i]),
                sort_key(#[trigger] views[j]),
            ) by {
                let a = if i < place {
                    i
                } else {
                    i - 1
                };
                let b = if j < place {
                    j
                } else {
                    j - 1
                };
                if i != place {
                    assert(views[i] == old_catalog[a]@);
                    assert(old_views[a] == old_catalog[a]@);
                }
                if j != place {
                    assert(views[j] == old_catalog[b]@);
                    assert(old_views[b] == old_catalog[b]@);
                }
                if i == place && j == place {
                    lemma_in_order_total(key@, key@);
                } else if i != place && j != place {
                    assert(in_order(sort_key(old_views[a]), sort_key(old_views[b])));
                }
            }
            assert forall|i: int, j: int|
                0 <= i < j < k + 1 && sort_key(catalog@[i]@) == sort_key(
                    catalog@[j]@,
                ) implies #[trigger] origin[i] < #[trigger] origin[j] by {
                if i > place {
                    assert(origin[i] == old_origin[i - 1]);
                    assert(catalog@[i] == old_catalog[i - 1]);
                }
                if j > place {
                    assert(origin[j] == old_origin[j - 1]);
                    assert(catalog@[j] == old_catalog[j - 1]);
                }
            }
        }
        k += 1;
    }
    proof {
        let views = catalog.deep_view();
        assert forall|i: int| 0 <= i < views.len() implies 0 <= #[trigger] origin[i]
            < found.deep_view().len() && views[i] == found.deep_view()[origin[i]] by {
            assert(views[i] == catalog@[i]@);
        }
        assert forall|i: int, j: int|
            0 <= i < j < views.len() && sort_key(views[i]) == sort_key(
                views[j],
            ) implies #[trigger] origin[i] < #[trigger] origin[j] by {
            assert(views[i] == catalog@[i]@);
            assert(views[j] == catalog@[j]@);
        }
        assert(is_stable_arrangement(origin, found.deep_view(), views));
    }
    catalog
}

/// A file found in a scanned directory: its path, and its bytes where it was
/// read.
#[derive(Debug, PartialEq, Eq)]
pub struct DescriptorFile {
    pub path: String,
    /// `None` where the file could not be read.
    pub content: Option<Vec<u8>>,
}

/// What a `DescriptorFile` holds, as mathematical values.
pub struct DescriptorFileView {
    pub path: Seq<char>,
    pub content: Option<Seq<u8>>,
}

impl View for DescriptorFile {
    type V = DescriptorFileView;

    open spec fn view(&self) -> DescriptorFileView {
        DescriptorFileView { path: self.path@, content: self.content.deep_view() }
    }
}

impl DeepView for DescriptorFile {
    type V = DescriptorFileView;

    open spec fn deep_view(&self) -> DescriptorFileView {
        self@
    }
}

/// A directory that could be read, with the files found in it, in the order
/// of discovery.
#[derive(Debug, PartialEq, Eq)]
pub struct Directory {
    pub path: String,
    pub files: Vec<DescriptorFile>,
}

/// What a `Directory` holds, as mathematical values.
pub struct DirectoryView {
    pub path: Seq<char>,
    pub files: Seq<DescriptorFileView>,
}

impl View for Directory {
    type V = DirectoryView;

    open spec fn view(&self) -> DirectoryView {
        DirectoryView { path: self.path@, files: self.files.deep_view() }
    }
}

impl DeepView for Directory {
    type V = DirectoryView;

    open spec fn deep_view(&self) -> DirectoryView {
        self@
    }
}

/// How much a directory gave: the number of its files that yielded a record,
/// out of the number of its files.
#[derive(Debug, PartialEq, Eq)]
pub struct DirectoryYield {
    pub path: String,
    pub accepted: usize,
    pub total_files: usize,
}

/// What a `DirectoryYield` holds, as mathematical values.
pub struct DirectoryYieldView {
    pub path: Seq<char>,
    pub accepted: nat,
    pub total_files: nat,
}

impl View for DirectoryYield {
    type V = DirectoryYieldView;

    open spec fn view(&self) -> DirectoryYieldView {
        DirectoryYieldView {
            path: self.path@,
            accepted: self.accepted as nat,
            total_files: self.total_files as nat,
        }
    }
}

impl DeepView for DirectoryYield {
    type V = DirectoryYieldView;

    open spec fn deep_view(&self) -> DirectoryYieldView {
        self@
    }
}

/// A file that yielded no record, and why.
#[derive(Debug, PartialEq, Eq)]
pub struct Refusal {
    pub path: String,
    pub reason: Rejected,
}

/// What a `Refusal` holds, as mathematical values.
pub struct RefusalView {
    pub path: Seq<char>,
    pub reason: Rejected,
}

impl View for Refusal {
    type V = RefusalView;

    open spec fn view(&self) -> RefusalView {
        RefusalView { path: self.path@, reason: self.reason }
    }
}

impl DeepView for Refusal {
    type V = RefusalView;

    open spec fn deep_view(&self) -> RefusalView {
        self@
    }
}

/// The outcome of a scan.
#[derive(Debug, PartialEq, Eq)]
pub struct Scan {
    /// The catalog, in catalog order.
    pub applications: Vec<Application>,
    /// One yield for each directory, in the order scanned.
    pub yields: Vec<DirectoryYield>,
    /// The files that yielded no record, in the order of discovery.
    pub refusals: Vec<Refusal>,
}

/// The directories that are scanned by default, for a user whose home
/// directory is `home`.
pub open spec fn default_folders(home: Seq<char>) -> Seq<Seq<char>> {
    seq![
        "/run/current-system/sw/share/applications"@,
        "/usr/share/applications"@,
        "/usr/local/share/applications"@,
        "/var/lib/flatpak/exports/share/applications"@,
        home + "/.local/share/applications"@,
        home + "/.local/share/flatpak/exports/share/applications"@,
        home + "/.nix-profile/share/applications"@,
    ]
}

/// The records that the files of one directory yield, in the order of
/// discovery.
pub open spec fn accepted_in(files: Seq<DescriptorFileView>) -> Seq<ApplicationView>
    decreases files.len(),
{
    if files.len() == 0 {
        Seq::empty()
    } else {
        let earlier = accepted_in(files.drop_last());
        match parsed_file(files.last().path, files.last().content) {
            Ok(application) => earlier.push(application),
            Err(_) => earlier,
        }
    }
}

/// The files of one directory that yield no record, each with the reason, in
/// the order of discovery.
pub open spec fn refused_in(files: Seq<DescriptorFileView>) -> Seq<RefusalView>
    decreases files.len(),
{
    if files.len() == 0 {
        Seq::empty()
    } else {
        let earlier = refused_in(files.drop_last());
        match parsed_file(files.last().path, files.last().content) {
            Ok(_) => earlier,
            Err(reason) => earlier.push(RefusalView { path: files.last().path, reason }),
        }
    }
}

/// The records that all directories yield, in the order of discovery. A
/// record that two directories hold is found twice.
pub open spec fn discovered(directories: Seq<DirectoryView>) -> Seq<ApplicationView>
    decreases directories.len(),
{
    if directories.len() == 0 {
        Seq::empty()
    } else {
        discovered(directories.drop_last()) + accepted_in(directories.last().files)
    }
}

/// The files of all directories that yield no record, in the order of
/// discovery.
pub open spec fn refused(directories: Seq<DirectoryView>) -> Seq<RefusalView>
    decreases directories.len(),
{
    if directories.len() == 0 {
        Seq::empty()
    } else {
        refused(directories.drop_last()) + refused_in(directories.last().files)
    }
}

/// What each directory gave, in the order scanned.
pub open spec fn yields_of(directories: Seq<DirectoryView>) -> Seq<DirectoryYieldView> {
    Seq::new(
        directories.len(),
        |i: int|
            DirectoryYieldView {
                path: directories[i].path,
                accepted: accepted_in(directories[i].files).len(),
                total_files: directories[i].files.len(),
            },
    )
}

/// The directories that are scanned by default.
pub fn default_application_folders(home: &str) -> (folders: Vec<String>)
    ensures
        folders.deep_view() == default_folders(home@),
{
    let mut folders: Vec<String> = Vec::new();
    folders.push(String::from_str("/run/current-system/sw/share/applications"));
    folders.push(String::from_str("/usr/share/applications"));
    folders.push(String::from_str("/usr/local/share/applications"));
    folders.push(String::from_str("/var/lib/flatpak/exports/share/applications"));
    folders.push(String::from_str(home).concat("/.local/share/applications"));
    folders.push(String::from_str(home).concat("/.local/share/flatpak/exports/share/applications"));
    folders.push(String::from_str(home).concat("/.nix-profile/share/applications"));
    assert(folders.deep_view() =~= default_folders(home@));
    folders
}

/// The directories to scan: the default ones, then the extra ones.
pub fn application_folders(home: &str, extra_paths: &Vec<String>) -> (folders: Vec<String>)
    ensures
        folders.deep_view() == default_folders(home@) + extra_paths.deep_view(),
{
    let mut folders = default_application_folders(home);
    let ghost defaults = folders.deep_view();
    let mut i: usize = 0;
    while i < extra_paths.len()
        invariant
            i <= extra_paths.len(),
            folders.deep_view() == defaults + extra_paths.deep_view().take(i as int),
        decreases extra_paths.len() - i,
    {
        let ghost before = folders.deep_view();
        folders.push(extra_paths[i].clone());
        assert(folders.deep_view() =~= before.push(extra_paths@[i as int]@));
        assert(extra_paths.deep_view().take(i + 1) =~= extra_paths.deep_view().take(
            i as int,
        ).push(extra_paths@[i as int]@));
        i += 1;
    }
    assert(extra_paths.deep_view().take(extra_paths.len() as int) =~= extra_paths.deep_view());
    folders
}

/// Builds the catalog out of the directories that were read: every file is
/// parsed, the records are put in catalog order, and each directory's yield
/// and each refused file are reported.
pub fn scan_applications(directories: &Vec<Directory>) -> (scan: Scan)
    ensures
        is_catalog_of(scan.applications.deep_view(), discovered(directories.deep_view())),
        forall|i: int|
            0 <= i < scan.applications.len() ==> (#[trigger] scan.applications.deep_view()[
                i
            ]).is_launchable(),
        scan.yields.deep_view() == yields_of(directories.deep_view()),
        scan.refusals.deep_view() == refused(directories.deep_view()),
{
    let mut found: Vec<Application> = Vec::new();
    let mut yields: Vec<DirectoryYield> = Vec::new();
    let mut refusals: Vec<Refusal> = Vec::new();
    let mut d: usize = 0;
    proof {
        assert(directories.deep_view().take(0) =~= Seq::empty());
        assert(found.deep_view() =~= Seq::empty());
        assert(refusals.deep_view() =~= Seq::empty());
        assert(yields.deep_view() =~= yields_of(directories.deep_view()).take(0));
    }
    while d < directories.len()
        invariant
            d <= directories.len(),
            found.deep_view() == discovered(directories.deep_view().take(d as int)),
            forall|i: int| 0 <= i < found.len() ==> (#[trigger] found@[i])@.is_launchable(),
            refusals.deep_view() == refused(directories.deep_view().take(d as int)),
            yields.deep_view() == yields_of(directories.deep_view()).take(d as int),
        decreases directories.len() - d,
    {
        let directory = &directories[d];
        let ghost files = directory.files.deep_view();
        let ghost found_before = found.deep_view();
        let ghost refusals_before = refusals.deep_view();
        proof {
            let upto = directories.deep_view().take(d + 1);
            assert(upto.drop_last() =~= directories.deep_view().take(d as int));
            assert(upto.last() == directory@);
            assert(files.take(0) =~= Seq::empty());
            assert(found.deep_view() =~= found_before + Seq::empty());
            assert(refusals.deep_view() =~= refusals_before + Seq::empty());
        }
        let mut accepted: usize = 0;
        let mut f: usize = 0;
        while f < directory.files.len()
            invariant
                f <= directory.files.len(),
                files == directory.files.deep_view(),
                accepted == accepted_in(files.take(f as int)).len(),
                accepted <= f,
                forall|i: int| 0 <= i < found.len() ==> (#[trigger] found@[i])@.is_launchable(),
                found.deep_view() == found_before + accepted_in(files.take(f as int)),
                refusals.deep_view() == refusals_before + refused_in(files.take(f as int)),
            decreases directory.files.len() - f,
        {
            let file = &directory.files[f];
            proof {
                let upto = files.take(f + 1);
                assert(upto.drop_last() =~= files.take(f as int));
                assert(upto.last() == file@);
            }
            let ghost found_here = found.deep_view();
            let ghost refusals_here = refusals.deep_view();
            match parse_desktop_file(file.path.as_str(), &file.content) {
                Ok(application) => {
                    let ghost record = application@;
                    found.push(application);
                    accepted += 1;
                    assert(found.deep_view() =~= found_here.push(record));
                    assert(found.deep_view() =~= found_before + accepted_in(files.take(f + 1)));
                },
                Err(reason) => {
                    let refusal = Refusal { path: file.path.clone(), reason };
                    let ghost record = refusal@;
                    refusals.push(refusal);
                    assert(refusals.deep_view() =~= refusals_here.push(record));
                    assert(refusals.deep_view() =~= refusals_before + refused_in(
                        files.take(f + 1),
                    ));
                },
            }
            f += 1;
        }
        assert(files.take(directory.files.len() as int) =~= files);
        let ghost yields_before = yields.deep_view();
        let report = DirectoryYield {
            path: directory.path.clone(),
            accepted,
            total_files: directory.files.len(),
        };
        let ghost record = report@;
        yields.push(report);
        proof {
            assert(yields.deep_view() =~= yields_before.push(record));
            assert(yields.deep_view() =~= yields_of(directories.deep_view()).take(d + 1));
        }
        d += 1;
    }
    proof {
        assert(directories.deep_view().take(directories.len() as int)
            =~= directories.deep_view());
        assert(yields_of(directories.deep_view()).take(directories.len() as int) =~= yields_of(
            directories.deep_view(),
        ));
    }
    let applications = sort_applications(&found);
    proof {
        let catalog = applications.deep_view();
        let origin = choose|origin: Seq<int>|
            is_stable_arrangement(origin, found.deep_view(), catalog);
        assert forall|i: int| 0 <= i < applications.len() implies (
        #[trigger] catalog[i]).is_launchable() by {
            assert(catalog[i] == found.deep_view()[origin[i]]);
            assert(found.deep_view()[origin[i]] == found@[origin[i]]@);
        }
    }
    Scan { applications, yields, refusals }
}

/// Two arrangements of the same records agree on every place before `upto`.
proof fn lemma_origins_agree(
    first_origin: Seq<int>,
    second_origin: Seq<int>,
    found: Seq<ApplicationView>,
    first: Seq<ApplicationView>,
    second: Seq<ApplicationView>,
    upto: int,
)
    requires
        is_sorted(first),
        is_sorted(second),
        is_stable_arrangement(first_origin, found, first),
        is_stable_arrangement(second_origin, found, second),
        0 <= upto <= found.len(),
    ensures
        forall|i: int| 0 <= i < upto ==> first_origin[i] == second_origin[i],
    decreases upto,
{
    if upto > 0 {
        lemma_origins_agree(first_origin, second_origin, found, first, second, upto - 1);
        let i = upto - 1;
        let s = first_origin[i];
        let t = second_origin[i];
        if s != t {
            assert(takes(second_origin, s));
            let p = choose|p: int| 0 <= p < second_origin.len() && second_origin[p] == s;
            assert(takes(first_origin, t));
            let q = choose|q: int| 0 <= q < first_origin.len() && first_origin[q] == t;
            if p < i {
                assert(first_origin[p] == second_origin[p]);
                assert(first_origin[p] != first_origin[i]);
            }
            if q < i {
                assert(second_origin[q] == first_origin[q]);
                assert(second_origin[q] != second_origin[i]);
            }
            assert(i < p && i < q);
            assert(first[i] == found[s] && first[q] == found[t]);
            assert(second[i] == found[t] && second[p] == found[s]);
            assert(in_order(sort_key(first[i]), sort_key(first[q])));
            assert(in_order(sort_key(second[i]), sort_key(second[p])));
            lemma_in_order_antisymmetric(sort_key(found[s]), sort_key(found[t]));
            assert(first_origin[i] < first_origin[q]);
            assert(second_origin[i] < second_origin[p]);
        }
    }
}

/// What was found has one catalog only: any two catalogs of the same records
/// are equal.
pub proof fn lemma_catalog_is_determined(
    first: Seq<ApplicationView>,
    second: Seq<ApplicationView>,
    found: Seq<ApplicationView>,
)
    requires
        is_catalog_of(first, found),
        is_catalog_of(second, found),
    ensures
        first == second,
{
    let first_origin = choose|origin: Seq<int>| is_stable_arrangement(origin, found, first);
    let second_origin = choose|origin: Seq<int>| is_stable_arrangement(origin, found, second);
    lemma_origins_agree(first_origin, second_origin, found, first, second, found.len() as int);
    assert forall|i: int| 0 <= i < first.len() implies first[i] == second[i] by {
        assert(first_origin[i] == second_origin[i]);
    }
    assert(first =~= second);
}

} // verus!
