use vstd::prelude::*;

verus! {

/// The local address and port shown to the user.
pub struct NetworkInfo {
    pub ip_address: String,
    pub udp_port: u16,
}

impl NetworkInfo {
    /// Not yet discovered: address `Unknown`, port 0.
    pub fn new() -> (r: Self)
        ensures
            r.ip_address@ == "Unknown"@,
            r.udp_port == 0,
    {
        NetworkInfo { ip_address: "Unknown".to_owned(), udp_port: 0 }
    }
}

} // verus!
