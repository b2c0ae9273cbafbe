use vstd::prelude::*;
use crate::{Address, PlayerId};

verus! {

/// Static denylists the server is configured with.
pub struct BanList {
    pub addresses: Vec<Address>,
    pub ids: Vec<PlayerId>,
}

/// Server configuration: the denylists and whether relayed game packets
/// are rewritten per recipient (merge mode).
pub struct Settings {
    pub is_merge_enabled: bool,
    pub ban_list: BanList,
}

/// Whether a connection with this address and identity is denylisted.
pub open spec fn is_banned(s: Settings, address: Address, id: PlayerId) -> bool {
    s.ban_list.addresses@.contains(address) || s.ban_list.ids@.contains(id)
}

impl Settings {
    pub fn is_banned(&self, address: Address, id: PlayerId) -> (r: bool)
        ensures
            r == is_banned(*self, address, id),
    {
        let mut i: usize = 0;
        let na = self.ban_list.addresses.len();
        while i < na
            invariant
                na == self.ban_list.addresses@.len(),
                i <= na,
                forall|j: int| 0 <= j < i ==> self.ban_list.addresses@[j] != address,
            decreases na - i,
        {
            if self.ban_list.addresses[i] == address {
                return true;
            }
            i = i + 1;
        }
        let mut k: usize = 0;
        let ni = self.ban_list.ids.len();
        while k < ni
            invariant
                ni == self.ban_list.ids@.len(),
                k <= ni,
                forall|j: int| 0 <= j < k ==> self.ban_list.ids@[j] != id,
            decreases ni - k,
        {
            if self.ban_list.ids[k] == id {
                return true;
            }
            k = k + 1;
        }
        false
    }
}

} // verus!
