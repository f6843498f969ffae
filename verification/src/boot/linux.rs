//! Linux boots: what is logged of the initrd chain.

use super::util::{linux_config_path, resolve_linux_config_path};
use crate::text::{chars_of, join_seq, push_char};
use vstd::prelude::*;

verus! {

/// The views of a list of strings.
pub open spec fn string_views(paths: Seq<String>) -> Seq<Seq<char>> {
    paths.map_values(|p: String| p@)
}

/// The initrd paths, comma-separated, for the boot log.
pub fn linux_initrd_summary(paths: &[String]) -> (r: String)
    ensures
        r@ == join_seq(string_views(paths@), ','),
{
    let mut out = String::new();
    let mut index: usize = 0;
    assert(string_views(paths@.take(0)) =~= Seq::<Seq<char>>::empty());
    while index < paths.len()
        invariant
            index <= paths@.len(),
            out@ == join_seq(string_views(paths@.take(index as int)), ','),
        decreases paths@.len() - index,
    {
        let ghost before = out@;
        if index > 0 {
            push_char(&mut out, ',');
        }
        let chars = chars_of(paths[index].as_str());
        let mut j: usize = 0;
        let ghost head = out@;
        while j < chars.len()
            invariant
                j <= chars@.len(),
                out@ == head + chars@.take(j as int),
            decreases chars@.len() - j,
        {
            push_char(&mut out, chars[j]);
            j += 1;
            assert(out@ =~= head + chars@.take(j as int));
        }
        assert(chars@.take(j as int) =~= chars@);
        let ghost parts = string_views(paths@.take(index + 1));
        assert(parts.drop_last() =~= string_views(paths@.take(index as int)));
        assert(parts.last() == paths@[index as int]@);
        if index == 0 {
            assert(parts.len() == 1);
            assert(out@ =~= parts[0]);
        } else {
            assert(out@ =~= join_seq(parts.drop_last(), ',') + seq![','] + parts.last());
        }
        index += 1;
    }
    assert(paths@.take(index as int) =~= paths@);
    out
}

/// The initrd paths of a boot entry, each resolved against the directory
/// of the configuration file that names it.
pub fn resolve_linux_initrd_paths(base_dir: &str, initrd_paths: &[String]) -> (r: Vec<String>)
    ensures
        r@.len() == initrd_paths@.len(),
        forall|i: int| 0 <= i < r@.len() ==> #[trigger] r@[i]@ == linux_config_path(base_dir@, initrd_paths@[i]@),
{
    let mut paths: Vec<String> = Vec::new();
    let mut i: usize = 0;
    while i < initrd_paths.len()
        invariant
            i <= initrd_paths@.len(),
            paths@.len() == i,
            forall|j: int| 0 <= j < i ==> #[trigger] paths@[j]@ == linux_config_path(base_dir@, initrd_paths@[j]@),
        decreases initrd_paths@.len() - i,
    {
        paths.push(resolve_linux_config_path(base_dir, initrd_paths[i].as_str()));
        i += 1;
    }
    paths
}

} // verus!
