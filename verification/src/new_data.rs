//! A note that something has arrived.

use vstd::prelude::*;

verus! {

/// Whether something has arrived since the last wait ended.
#[derive(Debug)]
pub struct NewDataAvailable {
    flag: bool,
}

impl NewDataAvailable {
    /// Something has arrived since the last wait ended.
    pub closed spec fn pending(&self) -> bool {
        self.flag
    }

    pub fn new() -> (res: Self)
        ensures
            !res.pending(),
    {
        NewDataAvailable { flag: false }
    }

    /// Notes that something has arrived.
    pub fn notify(&mut self)
        ensures
            final(self).pending(),
    {
        self.flag = true;
    }

    /// Whether somebody who waits has to go on waiting, if their time is not up.
    pub fn keep_waiting(&self) -> (res: bool)
        ensures
            res == !self.pending(),
    {
        !self.flag
    }

    /// What a wait ends with, by an arrival or by its timeout: whether something has arrived. The
    /// next wait asks for another arrival.
    pub fn wait_timeout(&mut self) -> (res: bool)
        ensures
            res == old(self).pending(),
            !final(self).pending(),
    {
        let new_data = self.flag;
        self.flag = false;
        new_data
    }
}

} // verus!
