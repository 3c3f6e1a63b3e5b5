//! The names that a run goes by: where the mirror and the metadata are put, and
//! by which extensions an archive is told from a plain file.

use vstd::prelude::*;

verus! {

/// The naming conventions of a run.
#[derive(Debug, PartialEq, Eq)]
pub struct Layout {
    /// The directory below the target that holds the mirrored tree.
    pub patch_dir_name: String,
    /// The directory below the target that holds the manifest and the status.
    pub metadata_dir_name: String,
    /// The file in the metadata directory that holds the manifest.
    pub manifest_file_name: String,
    /// The file in the metadata directory that holds the server status.
    pub status_file_name: String,
    /// The extension of the header file of a packed archive.
    pub header_extension: String,
    /// The extension of the payload file of a packed archive.
    pub payload_extension: String,
    /// The extension of a directory that holds an unpacked archive.
    pub unpacked_extension: String,
}

impl Layout {
    /// True of the conventional layout: `patch` and `meta`, `patchlist.json` and
    /// `status.json`, and the extensions `hed`, `dat` and `archive`.
    pub open spec fn is_standard(&self) -> bool {
        &&& self.patch_dir_name@ == "patch"@
        &&& self.metadata_dir_name@ == "meta"@
        &&& self.manifest_file_name@ == "patchlist.json"@
        &&& self.status_file_name@ == "status.json"@
        &&& self.header_extension@ == "hed"@
        &&& self.payload_extension@ == "dat"@
        &&& self.unpacked_extension@ == "archive"@
    }
}

impl Default for Layout {
    /// The conventional layout.
    fn default() -> (layout: Layout)
        ensures
            layout.is_standard(),
    {
        Layout {
            patch_dir_name: "patch".to_owned(),
            metadata_dir_name: "meta".to_owned(),
            manifest_file_name: "patchlist.json".to_owned(),
            status_file_name: "status.json".to_owned(),
            header_extension: "hed".to_owned(),
            payload_extension: "dat".to_owned(),
            unpacked_extension: "archive".to_owned(),
        }
    }
}

} // verus!
