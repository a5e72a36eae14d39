use vstd::prelude::*;

verus! {

/// Where the two store files live: the ongoing-state file and the completed-
/// frames file, both under one data directory.
pub struct Config {
    data_store: String,
}

impl Config {
    /// A configuration rooted at the given data directory.
    pub fn new(storage_path: String) -> (r: Self)
        ensures
            r@ == storage_path@,
    {
        Config { data_store: storage_path }
    }

    /// The path of the ongoing-state file.
    pub fn get_state_path(&self) -> (r: String)
        ensures
            r@ == self@ + "/state"@,
    {
        let p: String = self.data_store.clone();
        p.concat("/state")
    }

    /// The path of the completed-frames file.
    pub fn get_frames_path(&self) -> (r: String)
        ensures
            r@ == self@ + "/frames"@,
    {
        let p: String = self.data_store.clone();
        p.concat("/frames")
    }
}

impl View for Config {
    type V = Seq<char>;

    closed spec fn view(&self) -> Seq<char> {
        self.data_store@
    }
}

} // verus!
