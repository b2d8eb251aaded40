//! The settings a node starts with.
use vstd::prelude::*;

verus! {

/// A node's settings: its id, the address it talks to other nodes on, the
/// address it serves requests on, and where it keeps its data.
#[derive(Clone, Debug)]
pub struct Args {
    pub node_id: u64,
    pub raft_rpc_addr: String,
    pub http_addr: String,
    pub data_dir: String,
}

impl Args {
    /// Where the node keeps its database: its request address with `.db`
    /// after it.
    pub fn db_path(&self) -> (r: String)
        ensures
            r@ == self.http_addr@ + ".db"@,
    {
        let mut s = self.http_addr.clone();
        s.append(".db");
        s
    }
}

} // verus!
