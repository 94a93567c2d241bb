use vstd::prelude::*;

verus! {

/// One snapshot, as the backup tool lists it.
#[derive(Debug, Clone)]
pub struct SnapshotsJson {
    pub hostname: String,
    pub id: String,
    pub parent: String,
    pub paths: Vec<String>,
    pub short_id: String,
    pub time: String,
    pub tree: String,
    pub username: String,
}

/// One file of a snapshot, as the backup tool lists it.
#[derive(Debug, Clone)]
pub struct ListJson {
    pub atime: String,
    pub ctime: String,
    pub gid: i64,
    pub uid: i64,
    pub mode: i64,
    pub mtime: String,
    pub name: String,
    pub path: String,
    pub struct_type: String,
}

} // verus!
