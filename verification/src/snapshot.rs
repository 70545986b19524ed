//! What a scan reads of the filesystem: one record per directory entry, with
//! the listing of each directory that was read.

use vstd::prelude::*;
use crate::text::{dot_prefixed, is_dot_prefixed};

verus! {

/// What kind of thing a directory entry is, taken without following links.
#[derive(Clone, Copy, Debug)]
pub enum NodeKind {
    File,
    Directory,
    /// A symbolic link, whatever it points at.
    Symlink,
    /// Neither file, directory nor link.
    Other,
    /// The kind could not be read, or there is no such entry.
    Unknown,
}

/// How hidden entries are told apart on the platform at hand.
#[derive(Clone, Copy, Debug)]
pub enum HiddenRule {
    /// An entry is hidden when its name begins with a `.`.
    DotPrefix,
    /// An entry is hidden when the filesystem marks it so.
    AttributeBit,
}

/// One entry of the filesystem as it was read.
///
/// For the root of a scan `kind` says what the path leads to, links followed;
/// for every entry below it, what the entry itself is.
#[derive(Debug)]
pub struct FsNode {
    /// The final segment of `path`.
    pub name: String,
    pub path: String,
    pub kind: NodeKind,
    /// Whether the filesystem marks the entry as hidden.
    pub hidden_attribute: bool,
    /// Whether the entries of this directory could be read.
    pub listed: bool,
    /// The entries of a directory in the order in which they were listed.
    pub entries: Vec<FsNode>,
}

/// The model of an `FsNode`.
pub struct FsModel {
    pub name: Seq<char>,
    pub path: Seq<char>,
    pub kind: NodeKind,
    pub hidden_attribute: bool,
    pub listed: bool,
    pub entries: Seq<FsModel>,
}

impl View for FsNode {
    type V = FsModel;

    open spec fn view(&self) -> FsModel
        decreases self,
    {
        FsModel {
            name: self.name@,
            path: self.path@,
            kind: self.kind,
            hidden_attribute: self.hidden_attribute,
            listed: self.listed,
            entries: Seq::new(
                self.entries@.len(),
                |i: int|
                    if 0 <= i < self.entries@.len() {
                        self.entries@[i]@
                    } else {
                        arbitrary()
                    },
            ),
        }
    }
}

/// The models of a sequence of entries, in the same order.
pub open spec fn entries_view(entries: Seq<FsNode>) -> Seq<FsModel> {
    Seq::new(entries.len(), |i: int| entries[i]@)
}

/// The model of a node holds the models of its entries.
pub proof fn lemma_node_entries(node: FsNode)
    ensures
        node@.entries == entries_view(node.entries@),
{
    reveal_with_fuel(<FsNode as View>::view, 2);
    assert(node@.entries =~= entries_view(node.entries@));
}

/// Whether an entry is hidden under the given rule.
pub open spec fn hidden_under(rule: HiddenRule, node: FsModel) -> bool {
    match rule {
        HiddenRule::DotPrefix => dot_prefixed(node.name),
        HiddenRule::AttributeBit => node.hidden_attribute,
    }
}

/// Whether `node` is hidden under `rule`.
pub fn is_hidden(rule: HiddenRule, node: &FsNode) -> (hidden: bool)
    ensures
        hidden == hidden_under(rule, node@),
{
    match rule {
        HiddenRule::DotPrefix => is_dot_prefixed(node.name.as_str()),
        HiddenRule::AttributeBit => node.hidden_attribute,
    }
}

} // verus!
