//! The services a plugin may call back into, bound to the plugin's file.
use vstd::prelude::*;

use crate::path::{FsPath, PathView};

verus! {

/// Services handed to one plugin; it knows the plugin's file, to name it in
/// what the plugin writes.
#[derive(Debug)]
pub struct LantanaCoreServices {
    dll_name: FsPath,
}

impl LantanaCoreServices {
    pub closed spec fn dll(&self) -> PathView {
        self.dll_name@
    }

    pub fn new(p: FsPath) -> (r: Box<Self>)
        ensures
            r.dll() == p@,
    {
        Box::new(LantanaCoreServices { dll_name: p })
    }

    /// The plugin file the services are bound to.
    pub fn get_dll_name(&self) -> (r: FsPath)
        ensures
            r@ == self.dll(),
    {
        self.dll_name.clone()
    }
}

} // verus!
