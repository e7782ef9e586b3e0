//! The records that a listing is made of.

use vstd::prelude::*;
use crate::charclass::SEPARATOR;
use crate::segment::{lemma_name_is_final_segment, name_of, path_name};
use crate::token::{file_type_token, token_of};

verus! {

/// One child of a directory as the filesystem reported it: where it is, and
/// whether it was a directory when it was looked at.
#[derive(Debug, Clone, PartialEq, Eq)]
pub struct Child {
    pub path: String,
    pub is_dir: bool,
}

/// A child of a directory with what is derived from its path and its kind.
#[derive(Debug, Clone, PartialEq, Eq)]
pub struct PathNode {
    pub path: String,
    pub name: String,
    pub is_dir: bool,
    pub file_type: String,
    pub icon: String,
}

/// What a `Child` holds.
pub struct ChildView {
    pub path: Seq<char>,
    pub is_dir: bool,
}

/// What a `PathNode` holds.
pub struct PathNodeView {
    pub path: Seq<char>,
    pub name: Seq<char>,
    pub is_dir: bool,
    pub file_type: Seq<char>,
    pub icon: Seq<char>,
}

impl View for Child {
    type V = ChildView;

    open spec fn view(&self) -> ChildView {
        ChildView { path: self.path@, is_dir: self.is_dir }
    }
}

impl DeepView for Child {
    type V = ChildView;

    open spec fn deep_view(&self) -> ChildView {
        self@
    }
}

impl View for PathNode {
    type V = PathNodeView;

    open spec fn view(&self) -> PathNodeView {
        PathNodeView {
            path: self.path@,
            name: self.name@,
            is_dir: self.is_dir,
            file_type: self.file_type@,
            icon: self.icon@,
        }
    }
}

impl DeepView for PathNode {
    type V = PathNodeView;

    open spec fn deep_view(&self) -> PathNodeView {
        self@
    }
}

/// The icon of an entry: one for directories, one for everything else.
pub open spec fn icon_of(is_dir: bool) -> Seq<char> {
    if is_dir {
        "folder"@
    } else {
        "description"@
    }
}

/// The record of a child: its path and kind as they came, the name that the
/// path ends in, the file-type token of that name, and the icon of its kind.
pub open spec fn node_of(child: ChildView) -> PathNodeView {
    PathNodeView {
        path: child.path,
        name: name_of(child.path),
        is_dir: child.is_dir,
        file_type: token_of(name_of(child.path)),
        icon: icon_of(child.is_dir),
    }
}

impl PathNodeView {
    /// Whether the derived fields are those that the path and the kind give.
    pub open spec fn wf(self) -> bool {
        self == node_of(ChildView { path: self.path, is_dir: self.is_dir })
    }
}

/// An entry has the folder icon exactly when it is a directory, and the
/// description icon exactly when it is not.
pub proof fn lemma_folder_icon_iff_directory(node: PathNodeView)
    requires
        node.wf(),
    ensures
        node.icon == "folder"@ <==> node.is_dir,
        node.icon == "description"@ <==> !node.is_dir,
{
    reveal_strlit("folder");
    reveal_strlit("description");
    assert("folder"@.len() != "description"@.len());
}

/// The path of an entry that holds a separator ends with a separator and the
/// entry's name, and the name is empty only where the path itself ends in a
/// separator.
pub proof fn lemma_path_ends_with_name(node: PathNodeView)
    requires
        node.wf(),
        node.path.contains(SEPARATOR),
    ensures
        node.name.len() < node.path.len(),
        node.path == node.path.take(node.path.len() - node.name.len() - 1).push(SEPARATOR)
            + node.name,
        !node.name.contains(SEPARATOR),
        node.name.len() == 0 <==> node.path.last() == SEPARATOR,
{
    let path = node.path;
    let start = path.len() - node.name.len();
    lemma_name_is_final_segment(path);
    if start == 0 {
        assert(path =~= node.name);
    }
    assert(path.take(start) =~= path.take(start - 1).push(SEPARATOR));
}

/// Picks the icon for an entry of the given kind.
pub fn icon_for(is_dir: bool) -> (icon: String)
    ensures
        icon@ == icon_of(is_dir),
{
    if is_dir {
        "folder".to_owned()
    } else {
        "description".to_owned()
    }
}

/// Builds the record of one child.
pub fn classify(child: &Child) -> (node: PathNode)
    ensures
        node@ == node_of(child@),
{
    let name = path_name(child.path.as_str());
    let file_type = file_type_token(name.as_str());
    PathNode {
        path: child.path.clone(),
        name,
        is_dir: child.is_dir,
        file_type,
        icon: icon_for(child.is_dir),
    }
}

} // verus!
