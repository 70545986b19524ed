//! The directory scan: from what was read of a directory tree to the pruned,
//! ordered and bounded tree that is shown.

use vstd::prelude::*;
use crate::order::{
    insert_by_key, keys_match, lemma_sort_level_members, lemma_sort_level_size, lemma_sort_level_sorted,
    sort_level,
};
use crate::snapshot::{
    entries_view, hidden_under, is_hidden, lemma_node_entries, FsModel, FsNode, HiddenRule,
    NodeKind,
};
use crate::text::{extension, extension_of, lex_le, lowercase_of, to_lowercase};
use crate::tree::{
    forest_height, forest_height_upto, forest_ordered, forest_pruned, forest_size,
    forest_size_upto, forest_view, lemma_forest_height_bound, lemma_node_children, DirEntry, lemma_forest_size_concat,
    lemma_forest_size_push, node_height, node_ordered, node_pruned, node_size, sort_key,
    TreeNode,
};

verus! {

/// The depth below which nothing is read unless the caller says otherwise.
pub const MAX_DEPTH: u32 = 20;

/// The number of nodes that a result holds at most unless the caller says
/// otherwise.
pub const MAX_ENTRIES: usize = 10_000;

/// The bounds of one scan.
#[derive(Clone, Copy, Debug)]
pub struct ScanLimits {
    /// Directories deeper than this below the root are left out; the root is
    /// at depth 0.
    pub max_depth: u32,
    /// A result holds at most this many nodes.
    pub max_entries: usize,
}

/// Why a scan gave no result.
#[derive(Clone, Copy, Debug)]
pub enum ScanError {
    /// The root is missing or is no directory.
    NotADirectory,
}

/// The rules of one scan, as contracts speak of them.
pub struct ScanRules {
    /// The accepted extensions, in lowercase.
    pub extensions: Seq<Seq<char>>,
    pub hidden: HiddenRule,
    pub max_depth: nat,
    pub max_entries: nat,
}

/// What has been gathered of one directory: the kept directories and files in
/// the order in which they were met, and the number of nodes counted so far
/// in the whole scan.
pub struct Gathered {
    pub dirs: Seq<TreeNode>,
    pub files: Seq<TreeNode>,
    pub count: nat,
}

/// The text that is looked up among the accepted extensions: the file name's
/// extension in lowercase, or the empty text where it has none.
pub open spec fn extension_key(name: Seq<char>) -> Seq<char> {
    match extension_of(name) {
        Some(ext) => lowercase_of(ext),
        None => Seq::empty(),
    }
}

/// Whether a file of that name is kept.
pub open spec fn file_qualifies(rules: ScanRules, name: Seq<char>) -> bool {
    rules.extensions.contains(extension_key(name))
}

/// The node that stands for a kept file.
pub open spec fn file_node(entry: FsModel) -> TreeNode {
    TreeNode { name: entry.name, path: entry.path, is_directory: false, children: Seq::empty() }
}

/// The node that stands for a kept directory with the given children.
pub open spec fn dir_node(entry: FsModel, children: Seq<TreeNode>) -> TreeNode {
    TreeNode { name: entry.name, path: entry.path, is_directory: true, children }
}

/// The children shown for a directory at `depth` whose listing is `dir`, when
/// `count` nodes are counted already, and the count afterwards.
///
/// Nothing is shown below `max_depth`, once `count` has reached
/// `max_entries`, or of a directory that could not be read. Otherwise the
/// kept directories come first and the kept files after them, each group by
/// sort key.
pub open spec fn scan_level(dir: FsModel, rules: ScanRules, depth: nat, count: nat) -> (
    Seq<TreeNode>,
    nat,
)
    decreases dir, 0nat,
{
    if depth > rules.max_depth || count >= rules.max_entries || !dir.listed {
        (Seq::empty(), count)
    } else {
        let got = gather(dir.entries, dir.entries.len(), rules, depth, count);
        (sort_level(got.dirs) + sort_level(got.files), got.count)
    }
}

/// What the first `upto` entries of a listing at `depth` contribute.
///
/// An entry is passed over once the count has reached `max_entries`, when it
/// is hidden, and when it is neither file nor directory. A directory is
/// counted before its own entries are looked at, so that there is room left
/// for it, and kept only if something below it is kept; a directory that is
/// not kept gives its count back. A file is kept if its extension is
/// accepted.
pub open spec fn gather(
    entries: Seq<FsModel>,
    upto: nat,
    rules: ScanRules,
    depth: nat,
    count: nat,
) -> Gathered
    decreases entries, upto,
{
    if upto == 0 || upto > entries.len() {
        Gathered { dirs: Seq::empty(), files: Seq::empty(), count }
    } else {
        let before = gather(entries, (upto - 1) as nat, rules, depth, count);
        let entry = entries[upto - 1];
        if before.count >= rules.max_entries || hidden_under(rules.hidden, entry) {
            before
        } else {
            match entry.kind {
                NodeKind::Directory => {
                    let (children, counted) = scan_level(entry, rules, depth + 1, before.count + 1);
                    if children.len() == 0 {
                        before
                    } else {
                        Gathered {
                            dirs: before.dirs.push(dir_node(entry, children)),
                            files: before.files,
                            count: counted,
                        }
                    }
                },
                NodeKind::File => {
                    if file_qualifies(rules, entry.name) {
                        Gathered {
                            dirs: before.dirs,
                            files: before.files.push(file_node(entry)),
                            count: before.count + 1,
                        }
                    } else {
                        before
                    }
                },
                _ => before,
            }
        }
    }
}

/// The result of scanning below `root`: the root's own level.
pub open spec fn scan_result(root: FsModel, rules: ScanRules) -> Seq<TreeNode> {
    scan_level(root, rules, 0, 0).0
}

/// What holds of every directory node that a scan keeps at `depth`: it is
/// marked as a directory, nothing in it is empty or out of order, and it does
/// not reach deeper than the rules allow.
pub open spec fn kept_dir(node: TreeNode, rules: ScanRules, depth: nat) -> bool {
    &&& node.is_directory
    &&& node_pruned(node)
    &&& node_ordered(node)
    &&& node_height(node) + depth <= rules.max_depth + 1
}

/// What holds of every file node that a scan keeps: it is no directory and
/// has no children.
pub open spec fn kept_file(node: TreeNode) -> bool {
    &&& !node.is_directory
    &&& node.children.len() == 0
}

/// What is gathered of a listing: the count grows by the nodes that were
/// kept and stays within the budget, and every kept node is sound.
pub proof fn lemma_gather_sound(
    entries: Seq<FsModel>,
    upto: nat,
    rules: ScanRules,
    depth: nat,
    count: nat,
)
    ensures
        ({
            let got = gather(entries, upto, rules, depth, count);
            &&& got.count == count + forest_size(got.dirs) + forest_size(got.files)
            &&& count <= rules.max_entries ==> got.count <= rules.max_entries
            &&& forall|i: int| 0 <= i < got.dirs.len() ==> kept_dir(#[trigger] got.dirs[i], rules, depth)
            &&& forall|i: int| 0 <= i < got.files.len() ==> kept_file(#[trigger] got.files[i])
        }),
    decreases entries, upto, 0nat,
{
    let got = gather(entries, upto, rules, depth, count);
    if upto == 0 || upto > entries.len() {
        assert(forest_size(got.dirs) == 0);
        assert(forest_size(got.files) == 0);
    } else {
        let before = gather(entries, (upto - 1) as nat, rules, depth, count);
        let entry = entries[upto - 1];
        lemma_gather_sound(entries, (upto - 1) as nat, rules, depth, count);
        if before.count >= rules.max_entries || hidden_under(rules.hidden, entry) {
        } else {
            match entry.kind {
                NodeKind::Directory => {
                    let (children, counted) = scan_level(entry, rules, depth + 1, before.count + 1);
                    lemma_scan_level_sound(entry, rules, depth + 1, before.count + 1);
                    if children.len() > 0 {
                        let node = dir_node(entry, children);
                        lemma_forest_size_push(before.dirs, node);
                        assert(node_size(node) == 1 + forest_size(children));
                        assert(forest_pruned(children) && forest_ordered(children));
                        assert(node_pruned(node)) by {
                            assert forall|i: int| 0 <= i < node.children.len() implies node_pruned(
                                #[trigger] node.children[i],
                            ) by {
                                assert(node_pruned(children[i]));
                            }
                        }
                        assert(node_ordered(node)) by {
                            assert forall|i: int| 0 <= i < node.children.len() implies node_ordered(
                                #[trigger] node.children[i],
                            ) by {
                                assert(node_ordered(children[i]));
                            }
                        }
                        lemma_forest_height_bound(
                            children,
                            children.len(),
                            (rules.max_depth - depth) as nat,
                        );
                        assert(node_height(node) == 1 + forest_height(children));
                        assert(kept_dir(node, rules, depth));
                        assert forall|i: int| 0 <= i < got.dirs.len() implies kept_dir(
                            #[trigger] got.dirs[i],
                            rules,
                            depth,
                        ) by {
                            if i < before.dirs.len() {
                                assert(got.dirs[i] == before.dirs[i]);
                            }
                        }
                    }
                },
                NodeKind::File => {
                    if file_qualifies(rules, entry.name) {
                        let node = file_node(entry);
                        lemma_forest_size_push(before.files, node);
                        assert(node_size(node) == 1) by {
                            assert(forest_size_upto(node.children, 0) == 0);
                        }
                        assert forall|i: int| 0 <= i < got.files.len() implies kept_file(
                            #[trigger] got.files[i],
                        ) by {
                            if i < before.files.len() {
                                assert(got.files[i] == before.files[i]);
                            }
                        }
                    }
                },
                _ => {},
            }
        }
    }
}

/// What a scan shows for a directory: the count grows by the nodes shown and
/// stays within the budget, no directory shown is empty, every level is in
/// display order, and nothing reaches deeper than the rules allow.
pub proof fn lemma_scan_level_sound(dir: FsModel, rules: ScanRules, depth: nat, count: nat)
    ensures
        ({
            let (forest, counted) = scan_level(dir, rules, depth, count);
            &&& counted == count + forest_size(forest)
            &&& count <= rules.max_entries ==> counted <= rules.max_entries
            &&& forest_pruned(forest)
            &&& forest_ordered(forest)
            &&& forall|i: int|
                0 <= i < forest.len() ==> #[trigger] node_height(forest[i]) + depth
                    <= rules.max_depth + 1
        }),
    decreases dir, 0nat, 1nat,
{
    let (forest, counted) = scan_level(dir, rules, depth, count);
    if depth > rules.max_depth || count >= rules.max_entries || !dir.listed {
        assert(forest_size(forest) == 0);
    } else {
        let got = gather(dir.entries, dir.entries.len(), rules, depth, count);
        lemma_gather_sound(dir.entries, dir.entries.len(), rules, depth, count);
        let dirs = sort_level(got.dirs);
        let files = sort_level(got.files);
        lemma_sort_level_members(got.dirs);
        lemma_sort_level_members(got.files);
        lemma_sort_level_size(got.dirs);
        lemma_sort_level_size(got.files);
        lemma_sort_level_sorted(got.dirs);
        lemma_sort_level_sorted(got.files);
        lemma_forest_size_concat(dirs, files);
        assert forall|i: int| 0 <= i < dirs.len() implies kept_dir(#[trigger] dirs[i], rules, depth) by {
            assert(got.dirs.contains(dirs[i]));
        }
        assert forall|i: int| 0 <= i < files.len() implies kept_file(#[trigger] files[i]) by {
            assert(got.files.contains(files[i]));
        }
        assert forall|i: int| 0 <= i < forest.len() implies node_pruned(#[trigger] forest[i])
            && node_ordered(forest[i]) && node_height(forest[i]) + depth <= rules.max_depth + 1 by {
            if i < dirs.len() {
                assert(kept_dir(dirs[i], rules, depth));
            } else {
                let node = files[i - dirs.len()];
                assert(kept_file(node));
                assert(forest_height_upto(node.children, 0) == 0);
            }
        }
        assert forall|i: int, j: int| 0 <= i < j < forest.len() implies ({
            &&& #[trigger] forest[i].is_directory || !(#[trigger] forest[j].is_directory)
            &&& forest[i].is_directory == forest[j].is_directory ==> lex_le(
                sort_key(forest[i]),
                sort_key(forest[j]),
            )
        }) by {
            if j < dirs.len() {
                assert(kept_dir(dirs[i], rules, depth) && kept_dir(dirs[j], rules, depth));
                assert(lex_le(sort_key(dirs[i]), sort_key(dirs[j])));
            } else if i < dirs.len() {
                assert(kept_dir(dirs[i], rules, depth));
                assert(kept_file(files[j - dirs.len()]));
            } else {
                assert(kept_file(files[i - dirs.len()]) && kept_file(files[j - dirs.len()]));
                assert(lex_le(
                    sort_key(files[i - dirs.len()]),
                    sort_key(files[j - dirs.len()]),
                ));
            }
        }
    }
}

/// Once the count has reached the budget, the entries that follow add nothing.
pub proof fn lemma_gather_saturated(
    entries: Seq<FsModel>,
    from: nat,
    upto: nat,
    rules: ScanRules,
    depth: nat,
    count: nat,
)
    requires
        from <= upto <= entries.len(),
        gather(entries, from, rules, depth, count).count >= rules.max_entries,
    ensures
        gather(entries, upto, rules, depth, count) == gather(entries, from, rules, depth, count),
    decreases upto,
{
    if from < upto {
        lemma_gather_saturated(entries, from, (upto - 1) as nat, rules, depth, count);
    }
}

/// The texts of a sequence of strings, in the same order.
pub open spec fn texts(strings: Seq<String>) -> Seq<Seq<char>> {
    Seq::new(strings.len(), |i: int| strings[i]@)
}

/// The lowercase forms of a sequence of strings, in the same order.
pub open spec fn lowered_texts(strings: Seq<String>) -> Seq<Seq<char>> {
    Seq::new(strings.len(), |i: int| lowercase_of(strings[i]@))
}

/// The rules under which the given extensions, in any case, are accepted.
pub open spec fn rules_for(extensions: Seq<String>, hidden: HiddenRule, limits: ScanLimits) -> ScanRules {
    ScanRules {
        extensions: lowered_texts(extensions),
        hidden,
        max_depth: limits.max_depth as nat,
        max_entries: limits.max_entries as nat,
    }
}

impl ScanLimits {
    /// The bounds that a scan has where none are given: `MAX_DEPTH` and
    /// `MAX_ENTRIES`.
    pub fn standard() -> (limits: ScanLimits)
        ensures
            limits.max_depth == MAX_DEPTH,
            limits.max_entries == MAX_ENTRIES,
    {
        ScanLimits { max_depth: MAX_DEPTH, max_entries: MAX_ENTRIES }
    }
}

/// The lowercase form of each of `extensions`.
pub fn lowercase_all(extensions: &Vec<String>) -> (lowered: Vec<String>)
    ensures
        texts(lowered@) == lowered_texts(extensions@),
{
    let mut lowered: Vec<String> = Vec::new();
    let mut i: usize = 0;
    while i < extensions.len()
        invariant
            i <= extensions.len(),
            lowered.len() == i,
            forall|k: int| 0 <= k < i ==> (#[trigger] lowered[k])@ == lowercase_of(extensions[k]@),
        decreases extensions.len() - i,
    {
        lowered.push(to_lowercase(extensions[i].as_str()));
        i += 1;
    }
    assert(texts(lowered@) =~= lowered_texts(extensions@));
    lowered
}

/// Whether a file called `name` is kept when `accepted` holds the accepted
/// extensions in lowercase.
pub fn accepts(accepted: &Vec<String>, name: &str) -> (kept: bool)
    ensures
        kept == texts(accepted@).contains(extension_key(name@)),
{
    let key = match extension(name) {
        Some(ext) => to_lowercase(ext.as_str()),
        None => String::new(),
    };
    assert(key@ == extension_key(name@));
    let mut i: usize = 0;
    while i < accepted.len()
        invariant
            i <= accepted.len(),
            key@ == extension_key(name@),
            forall|k: int| 0 <= k < i ==> texts(accepted@)[k] != key@,
        decreases accepted.len() - i,
    {
        if accepted[i] == key {
            assert(texts(accepted@)[i as int] == key@);
            return true;
        }
        i += 1;
    }
    false
}

/// The rules under which `accepted`, already in lowercase, are the accepted
/// extensions.
pub open spec fn rules_with(accepted: Seq<String>, hidden: HiddenRule, limits: ScanLimits) -> ScanRules {
    ScanRules {
        extensions: texts(accepted),
        hidden,
        max_depth: limits.max_depth as nat,
        max_entries: limits.max_entries as nat,
    }
}

/// Builds what is shown for the directory `dir` at `depth`, counting in
/// `counter` the nodes of the whole scan.
pub fn build_level(
    dir: &FsNode,
    accepted: &Vec<String>,
    hidden: HiddenRule,
    limits: ScanLimits,
    depth: u32,
    counter: &mut usize,
) -> (level: Vec<DirEntry>)
    ensures
        (forest_view(level@), *final(counter) as nat) == scan_level(
            dir@,
            rules_with(accepted@, hidden, limits),
            depth as nat,
            *old(counter) as nat,
        ),
    decreases dir,
{
    let ghost rules = rules_with(accepted@, hidden, limits);
    let ghost start = *counter as nat;
    if depth > limits.max_depth || *counter >= limits.max_entries || !dir.listed {
        let level: Vec<DirEntry> = Vec::new();
        assert(forest_view(level@) =~= Seq::empty());
        return level;
    }
    let mut dirs: Vec<DirEntry> = Vec::new();
    let mut dir_keys: Vec<String> = Vec::new();
    let mut files: Vec<DirEntry> = Vec::new();
    let mut file_keys: Vec<String> = Vec::new();
    let total: usize = dir.entries.len();
    let mut i: usize = 0;
    proof {
        lemma_node_entries(*dir);
        assert(forest_view(dirs@) =~= sort_level(Seq::empty()));
        assert(forest_view(files@) =~= sort_level(Seq::empty()));
    }
    while i < total && *counter < limits.max_entries
        invariant
            i <= total,
            total == dir.entries@.len(),
            dir@.entries == entries_view(dir.entries@),
            depth <= limits.max_depth,
            rules == rules_with(accepted@, hidden, limits),
            forest_view(dirs@) == sort_level(gather(dir@.entries, i as nat, rules, depth as nat, start).dirs),
            forest_view(files@) == sort_level(
                gather(dir@.entries, i as nat, rules, depth as nat, start).files,
            ),
            *counter == gather(dir@.entries, i as nat, rules, depth as nat, start).count,
            keys_match(dir_keys@, dirs@),
            keys_match(file_keys@, files@),
        decreases total - i,
    {
        let entry = &dir.entries[i];
        let ghost before = gather(dir@.entries, i as nat, rules, depth as nat, start);
        let ghost after = gather(dir@.entries, (i + 1) as nat, rules, depth as nat, start);
        assert(entry@ == dir@.entries[i as int]);
        if !is_hidden(hidden, entry) {
            match entry.kind {
                NodeKind::Directory => {
                    if depth < limits.max_depth {
                        let saved: usize = *counter;
                        *counter = saved + 1;
                        let children = build_level(entry, accepted, hidden, limits, depth + 1, counter);
                        if children.len() == 0 {
                            *counter = saved;
                        } else {
                            let key = to_lowercase(entry.name.as_str());
                            let node = DirEntry {
                                name: entry.name.clone(),
                                path: entry.path.clone(),
                                is_directory: true,
                                children,
                            };
                            proof {
                                lemma_node_children(node);
                                assert(node@ == dir_node(entry@, forest_view(children@)));
                                assert(after.dirs.drop_last() =~= before.dirs);
                            }
                            insert_by_key(&mut dirs, &mut dir_keys, node, key);
                        }
                    } else {
                        assert(scan_level(
                            entry@,
                            rules,
                            (depth + 1) as nat,
                            (*counter + 1) as nat,
                        ).0.len() == 0);
                    }
                },
                NodeKind::File => {
                    if accepts(accepted, entry.name.as_str()) {
                        *counter = *counter + 1;
                        let key = to_lowercase(entry.name.as_str());
                        let node = DirEntry {
                            name: entry.name.clone(),
                            path: entry.path.clone(),
                            is_directory: false,
                            children: Vec::new(),
                        };
                        proof {
                            lemma_node_children(node);
                            assert(node@.children =~= Seq::empty());
                            assert(node@ == file_node(entry@));
                            assert(after.files.drop_last() =~= before.files);
                        }
                        insert_by_key(&mut files, &mut file_keys, node, key);
                    }
                },
                _ => {},
            }
        }
        i += 1;
    }
    proof {
        if i < total {
            lemma_gather_saturated(dir@.entries, i as nat, total as nat, rules, depth as nat, start);
        }
    }
    let ghost dir_models = forest_view(dirs@);
    let ghost file_models = forest_view(files@);
    dirs.append(&mut files);
    assert(forest_view(dirs@) =~= dir_models + file_models);
    dirs
}

/// No directory in a scan result is empty, at any level, and no file has
/// children.
pub proof fn lemma_scan_has_no_empty_directory(root: FsModel, rules: ScanRules)
    ensures
        forest_pruned(scan_result(root, rules)),
{
    lemma_scan_level_sound(root, rules, 0, 0);
}

/// At every level of a scan result the directories come before the files,
/// and within each of the two groups the lowercase names never decrease.
pub proof fn lemma_scan_is_ordered(root: FsModel, rules: ScanRules)
    ensures
        forest_ordered(scan_result(root, rules)),
{
    lemma_scan_level_sound(root, rules, 0, 0);
}

/// A scan result never holds more nodes than the entry budget.
pub proof fn lemma_scan_within_budget(root: FsModel, rules: ScanRules)
    ensures
        forest_size(scan_result(root, rules)) <= rules.max_entries,
{
    lemma_scan_level_sound(root, rules, 0, 0);
}

/// A scan result has at most one level more than the depth budget: the
/// entries of the directories at the greatest depth that is read.
pub proof fn lemma_scan_within_depth(root: FsModel, rules: ScanRules)
    ensures
        forest_height(scan_result(root, rules)) <= rules.max_depth + 1,
{
    lemma_scan_level_sound(root, rules, 0, 0);
    let forest = scan_result(root, rules);
    lemma_forest_height_bound(forest, forest.len(), rules.max_depth + 1);
}

/// An entry that is a symbolic link, is hidden, or is neither file nor
/// directory is passed over, whatever lies behind it: the scan goes on as if
/// it were not listed.
pub proof fn lemma_entry_passed_over(
    entries: Seq<FsModel>,
    upto: nat,
    rules: ScanRules,
    depth: nat,
    count: nat,
)
    requires
        0 < upto <= entries.len(),
        ({
            let entry = entries[upto - 1];
            ||| entry.kind is Symlink
            ||| entry.kind is Other
            ||| entry.kind is Unknown
            ||| hidden_under(rules.hidden, entry)
        }),
    ensures
        gather(entries, upto, rules, depth, count) == gather(
            entries,
            (upto - 1) as nat,
            rules,
            depth,
            count,
        ),
{
}

/// With no accepted extension, nothing is kept.
pub proof fn lemma_gather_without_extensions(
    entries: Seq<FsModel>,
    upto: nat,
    rules: ScanRules,
    depth: nat,
    count: nat,
)
    requires
        rules.extensions.len() == 0,
    ensures
        gather(entries, upto, rules, depth, count) == (Gathered {
            dirs: Seq::empty(),
            files: Seq::empty(),
            count,
        }),
    decreases entries, upto, 0nat,
{
    if 0 < upto <= entries.len() {
        lemma_gather_without_extensions(entries, (upto - 1) as nat, rules, depth, count);
        let entry = entries[upto - 1];
        if entry.kind is Directory {
            lemma_scan_without_extensions(entry, rules, depth + 1, count + 1);
        }
    }
}

/// With no accepted extension, a scan shows nothing.
pub proof fn lemma_scan_without_extensions(dir: FsModel, rules: ScanRules, depth: nat, count: nat)
    requires
        rules.extensions.len() == 0,
    ensures
        scan_level(dir, rules, depth, count) == (Seq::<TreeNode>::empty(), count),
    decreases dir, 0nat, 1nat,
{
    if !(depth > rules.max_depth || count >= rules.max_entries || !dir.listed) {
        lemma_gather_without_extensions(dir.entries, dir.entries.len(), rules, depth, count);
        assert(sort_level(Seq::<TreeNode>::empty()) + sort_level(Seq::<TreeNode>::empty())
            =~= Seq::<TreeNode>::empty());
    }
}

/// Scans below `root` within `limits`.
///
/// Fails exactly when `root` is no directory. Otherwise the result is
/// `scan_result` under the given rules, with `extensions` matched without
/// regard to case: no directory in it is empty, every level is in display
/// order, and it stays within both budgets.
///
/// Where the entry budget runs out, which entries are left out depends on
/// the order in which each directory was listed, and that order is the
/// platform's. The order of what is kept does not depend on it, except among
/// names that differ in case only.
pub fn scan_with_limits(
    root: &FsNode,
    extensions: &Vec<String>,
    hidden: HiddenRule,
    limits: ScanLimits,
) -> (result: Result<Vec<DirEntry>, ScanError>)
    ensures
        result is Ok <==> root@.kind is Directory,
        result is Ok ==> ({
            let forest = forest_view(result->Ok_0@);
            &&& forest == scan_result(root@, rules_for(extensions@, hidden, limits))
            &&& forest_pruned(forest)
            &&& forest_ordered(forest)
            &&& forest_size(forest) <= limits.max_entries
            &&& forest_height(forest) <= limits.max_depth + 1
        }),
{
    match root.kind {
        NodeKind::Directory => {},
        _ => {
            return Err(ScanError::NotADirectory);
        },
    }
    let accepted = lowercase_all(extensions);
    let mut counter: usize = 0;
    let level = build_level(root, &accepted, hidden, limits, 0, &mut counter);
    proof {
        let rules = rules_for(extensions@, hidden, limits);
        assert(rules == rules_with(accepted@, hidden, limits));
        lemma_scan_has_no_empty_directory(root@, rules);
        lemma_scan_is_ordered(root@, rules);
        lemma_scan_within_budget(root@, rules);
        lemma_scan_within_depth(root@, rules);
    }
    Ok(level)
}

/// Scans below `root` within the standard limits, `MAX_DEPTH` and
/// `MAX_ENTRIES`.
pub fn scan_directory(root: &FsNode, extensions: &Vec<String>, hidden: HiddenRule) -> (result: Result<
    Vec<DirEntry>,
    ScanError,
>)
    ensures
        result is Ok <==> root@.kind is Directory,
        result is Ok ==> ({
            let limits = ScanLimits { max_depth: MAX_DEPTH, max_entries: MAX_ENTRIES };
            let forest = forest_view(result->Ok_0@);
            &&& forest == scan_result(root@, rules_for(extensions@, hidden, limits))
            &&& forest_pruned(forest)
            &&& forest_ordered(forest)
            &&& forest_size(forest) <= MAX_ENTRIES
            &&& forest_height(forest) <= MAX_DEPTH + 1
        }),
{
    scan_with_limits(root, extensions, hidden, ScanLimits::standard())
}

} // verus!
