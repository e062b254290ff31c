//! Host records: one per row of the status table.

use vstd::prelude::*;
use crate::load::Load;

verus! {

/// What a host record stands for.
pub struct HostModel {
    pub name: Seq<char>,
    pub available: bool,
    pub uptime: Seq<char>,
    pub users: nat,
    pub load: Load,
}

/// One machine's figures, as its row of the status table gives them.
#[derive(Clone, Debug, PartialEq, Eq)]
pub struct HostRecord {
    /// The machine's name.
    pub name: String,
    /// Whether the row marks the machine "up".
    pub available: bool,
    /// How long the machine has been up, as the page writes it.
    pub uptime: String,
    /// How many users are logged in.
    pub users: usize,
    /// The machine's current load.
    pub load: Load,
}

impl View for HostRecord {
    type V = HostModel;

    open spec fn view(&self) -> HostModel {
        HostModel {
            name: self.name@,
            available: self.available,
            uptime: self.uptime@,
            users: self.users as nat,
            load: self.load,
        }
    }
}

impl HostRecord {
    /// A copy of the record.
    pub fn duplicate(&self) -> (r: HostRecord)
        ensures
            r@ == self@,
    {
        HostRecord {
            name: self.name.clone(),
            available: self.available,
            uptime: self.uptime.clone(),
            users: self.users,
            load: self.load,
        }
    }
}

/// What a sequence of records stands for.
pub open spec fn hosts_view(hosts: Vec<HostRecord>) -> Seq<HostModel> {
    hosts@.map_values(|h: HostRecord| h@)
}

} // verus!
