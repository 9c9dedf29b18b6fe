use vstd::prelude::*;
use vstd::string::StringExecFns;

verus! {

/// What the command fetches.
#[derive(Clone, Copy, Debug, PartialEq, Eq, Structural)]
pub enum FetchType {
    File,
    Tree,
}

/// Which parts of a file a fetch asks for.
#[derive(Clone, Copy, Debug, PartialEq, Eq, Structural)]
pub struct FileAttributes {
    pub pure_content: bool,
    pub content_header: bool,
    pub aux_data: bool,
}

/// Which parts of a tree a fetch asks for.
#[derive(Clone, Copy, Debug, PartialEq, Eq, Structural)]
pub struct TreeAttributes {
    pub content: bool,
    pub parents: bool,
    pub aux_data: bool,
}

/// The fetch type that the `mode` option names: `file` or `tree`.
pub fn parse_mode(mode: &String) -> (r: Result<FetchType, String>)
    ensures
        mode@ == "file"@ <==> r == Ok::<FetchType, String>(FetchType::File),
        mode@ == "tree"@ <==> r == Ok::<FetchType, String>(FetchType::Tree),
        r matches Err(msg) ==> msg@ == "'mode' must be one of 'file' or 'tree'"@,
{
    let file = String::from_str("file");
    let tree = String::from_str("tree");
    proof {
        reveal_strlit("file");
        reveal_strlit("tree");
        assert("file"@ != "tree"@) by {
            assert("file"@[0] != "tree"@[0]);
        }
    }
    if mode.eq(&file) {
        Ok(FetchType::File)
    } else if mode.eq(&tree) {
        Ok(FetchType::Tree)
    } else {
        Err(String::from_str("'mode' must be one of 'file' or 'tree'"))
    }
}

/// Keys come either from a requests file or from paths at a revision: exactly one of the two.
pub fn check_key_source(has_requests_file: bool, has_rev: bool) -> (r: Result<(), String>)
    ensures
        r is Ok <==> has_requests_file != has_rev,
        r matches Err(msg) ==> msg@ == "must specify exactly one of --rev or --path"@,
{
    if has_requests_file == has_rev {
        Err(String::from_str("must specify exactly one of --rev or --path"))
    } else {
        Ok(())
    }
}

/// The attribute sets of the successive file fetches. Each later pass retries the keys that
/// the one before missed, asking for content and aux data separately.
pub fn file_fetch_passes(aux_only: bool, pure_content: bool) -> (r: Vec<FileAttributes>)
    ensures
        r@.len() == if aux_only { 1int } else { 3int },
        r@[0] == (FileAttributes {
            pure_content: !aux_only,
            content_header: !aux_only && !pure_content,
            aux_data: true,
        }),
        !aux_only ==> r@[1] == (FileAttributes {
            pure_content: true,
            content_header: !pure_content,
            aux_data: false,
        }) && r@[2] == (FileAttributes { pure_content: false, content_header: false, aux_data: true }),
{
    let mut passes: Vec<FileAttributes> = Vec::new();
    passes.push(
        FileAttributes {
            pure_content: !aux_only,
            content_header: !aux_only && !pure_content,
            aux_data: true,
        },
    );
    if !aux_only {
        passes.push(FileAttributes { pure_content: true, content_header: !pure_content, aux_data: false });
        passes.push(FileAttributes { pure_content: false, content_header: false, aux_data: true });
    }
    passes
}

/// The attributes of a tree fetch: aux data or content, and parents on request.
pub fn tree_fetch_attributes(aux_only: bool, tree_parents: bool) -> (r: TreeAttributes)
    ensures
        r == (TreeAttributes { content: !aux_only, parents: tree_parents, aux_data: aux_only }),
{
    let mut attrs = if aux_only {
        TreeAttributes { content: false, parents: false, aux_data: true }
    } else {
        TreeAttributes { content: true, parents: false, aux_data: false }
    };
    if tree_parents {
        attrs.parents = true;
    }
    attrs
}

pub fn aliases() -> (r: &'static str)
    ensures
        r@ == "debugscmstore"@,
{
    "debugscmstore"
}

pub fn doc() -> (r: &'static str)
    ensures
        r@ == "test file and tree fetching using scmstore"@,
{
    "test file and tree fetching using scmstore"
}

pub fn synopsis() -> (r: Option<&'static str>)
    ensures
        r is None,
{
    None
}

pub fn enable_cas() -> (r: bool)
    ensures
        r,
{
    true
}

} // verus!
