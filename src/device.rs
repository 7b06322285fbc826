//! Paths for a local page that is pushed to the device.
use vstd::prelude::*;

use crate::text::{chars_of, occurs_at, occurs_at_exec, push_text, string_of};

verus! {

/// Where a local file lives on disk, in the application, and on the device.
#[derive(Debug)]
pub struct DeviceFilePaths {
    /// The file path on disk.
    pub stem: String,
    /// The file path the application can open.
    pub in_app: String,
    /// The file path on the device that files can be pushed to.
    pub on_device: String,
}

/// `s` without every leading repetition of `p`.
pub open spec fn trim_start(s: Seq<char>, p: Seq<char>) -> Seq<char>
    decreases s.len(),
{
    if p.len() > 0 && occurs_at(s, p, 0) {
        trim_start(s.subrange(p.len() as int, s.len() as int), p)
    } else {
        s
    }
}

proof fn lemma_trim_start_step(s: Seq<char>, p: Seq<char>, i: int)
    requires
        0 <= i <= s.len(),
        p.len() > 0,
        occurs_at(s.subrange(i, s.len() as int), p, 0),
    ensures
        trim_start(s.subrange(i, s.len() as int), p) == trim_start(
            s.subrange(i + p.len(), s.len() as int),
            p,
        ),
{
    assert(s.subrange(i, s.len() as int).subrange(p.len() as int, s.len() - i) =~= s.subrange(
        i + p.len(),
        s.len() as int,
    ));
}

/// The paths of a local page given as `file:///<name>`, for the bundle that opens it.
pub fn device_file_paths(file_name: &str, bundle_name: &str) -> (r: DeviceFilePaths)
    ensures
        r.stem@ == trim_start(file_name@, "file:///"@),
        r.in_app@ == "file:///data/storage/el2/base/cache/"@ + trim_start(file_name@, "file:///"@),
        r.on_device@ == "/data/app/el2/100/base/"@ + bundle_name@ + "/cache/"@ + trim_start(
            file_name@,
            "file:///"@,
        ),
{
    let v = chars_of(file_name);
    let p = chars_of("file:///");
    proof {
        reveal_strlit("file:///");
    }
    let mut i: usize = 0;
    assert(v@.subrange(0, v@.len() as int) =~= v@);
    while i <= v.len() && p.len() <= v.len() - i && occurs_at_exec(&v, &p, i)
        invariant
            0 <= i <= v@.len(),
            p@ == "file:///"@,
            p@.len() == 8,
            trim_start(v@, p@) == trim_start(v@.subrange(i as int, v@.len() as int), p@),
        decreases v@.len() - i,
    {
        assert(v@.subrange(i as int, v@.len() as int).subrange(0, p@.len() as int) =~= v@.subrange(
            i as int,
            i + p@.len(),
        ));
        proof {
            lemma_trim_start_step(v@, p@, i as int);
        }
        i = i + p.len();
    }
    proof {
        if i <= v@.len() && p@.len() <= v@.len() - i {
            assert(v@.subrange(i as int, v@.len() as int).subrange(0, p@.len() as int)
                =~= v@.subrange(i as int, i + p@.len()));
        }
    }
    let stem = string_of(&v, i, v.len());
    let mut in_app = String::new();
    push_text(&mut in_app, "file:///data/storage/el2/base/cache/");
    push_text(&mut in_app, stem.as_str());
    let mut on_device = String::new();
    push_text(&mut on_device, "/data/app/el2/100/base/");
    push_text(&mut on_device, bundle_name);
    push_text(&mut on_device, "/cache/");
    push_text(&mut on_device, stem.as_str());
    assert(in_app@ =~= "file:///data/storage/el2/base/cache/"@ + stem@);
    assert(on_device@ =~= "/data/app/el2/100/base/"@ + bundle_name@ + "/cache/"@ + stem@);
    DeviceFilePaths { stem, in_app, on_device }
}

} // verus!
