use vstd::prelude::*;

verus! {

/// A device that a machine may run on: its kind and its index.
#[derive(Debug)]
pub struct DeviceQuery {
    pub device: Option<String>,
    pub id: Option<String>,
}

/// The CUDA machine.
#[derive(Debug)]
pub struct CudaMachine;

impl CudaMachine {
    /// The devices it offers: the first CUDA device.
    pub fn get_candidates() -> (r: Vec<DeviceQuery>)
        ensures
            r@.len() == 1,
            r@[0].device matches Some(d) && d@ == seq!['c', 'u', 'd', 'a'],
            r@[0].id matches Some(i) && i@ == seq!['0'],
    {
        let device = "cuda".to_string();
        let id = "0".to_string();
        proof {
            reveal_strlit("cuda");
            reveal_strlit("0");
        }
        vec![DeviceQuery { device: Some(device), id: Some(id) }]
    }
}

} // verus!
