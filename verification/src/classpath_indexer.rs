//! The classpath indexer: turns the class-file entries discovered on the
//! classpath into a mapping from fully qualified class name to decoded
//! class.
//!
//! Enumerating classpath entries and reading archive contents is the
//! caller's work; this module splits the classpath string, selects the
//! compiled-class entries and decodes them, skipping entries that fail
//! to decode.

use vstd::prelude::*;
use vstd::hash_map::StringHashMap;

use crate::classfile::{classfile_view, spec_decode_bytes, ClassModel, Classfile};
use crate::text::{chars_end_with, chars_to_string, ends_with, split_chars, split_on, str_to_chars};

verus! {

/// Splits a classpath string on the path separator.
pub fn split_classpath(classpath: &str) -> (r: Vec<String>)
    ensures
        r.deep_view() == split_on(classpath@, ':'),
{
    let chars = str_to_chars(classpath);
    let pieces = split_chars(&chars, ':');
    let mut r: Vec<String> = Vec::new();
    let mut i: usize = 0;
    while i < pieces.len()
        invariant
            i <= pieces@.len(),
            r.deep_view() =~~= pieces.deep_view().subrange(0, i as int),
        decreases pieces@.len() - i,
    {
        let ghost r0 = r.deep_view();
        r.push(chars_to_string(&pieces[i]));
        assert(r.deep_view() =~~= r0.push(pieces.deep_view()[i as int]));
        assert(r.deep_view() =~~= pieces.deep_view().subrange(0, i + 1 as int));
        i += 1;
    }
    assert(pieces.deep_view().subrange(0, pieces@.len() as int) =~~= pieces.deep_view());
    r
}

/// The index the entries determine: walking the entries in order, each
/// one whose name ends in the compiled-class extension and whose bytes
/// decode contributes its class model under its dotted name, a later
/// entry overwriting an earlier one of the same name; failing or
/// non-class entries contribute nothing.
pub open spec fn spec_index(entries: Seq<(Seq<char>, Seq<u8>)>) -> Map<Seq<char>, ClassModel>
    decreases entries.len(),
{
    if entries.len() == 0 {
        Map::empty()
    } else {
        let prev = spec_index(entries.drop_last());
        let e = entries.last();
        if ends_with(e.0, ".class"@) {
            match spec_decode_bytes(e.1) {
                None => prev,
                Some(d) => prev.insert(d.0, d),
            }
        } else {
            prev
        }
    }
}

/// Decodes every archive entry whose name ends in the compiled-class
/// extension and indexes the successes by their fully qualified name,
/// exactly as [`spec_index`] describes.  A failed decode skips that
/// entry and never aborts indexing; every indexed class sits under its
/// own name.
pub fn index(entries: &Vec<(String, Vec<u8>)>) -> (r: StringHashMap<Classfile>)
    ensures
        r@.map_values(|cf: Classfile| classfile_view(cf)) == spec_index(entries.deep_view()),
        forall|k: Seq<char>| r@.contains_key(k) ==> (#[trigger] r@[k]).fqdn@ == k,
{
    let mut classes: StringHashMap<Classfile> = StringHashMap::new();
    let suffix = str_to_chars(".class");
    let mut i: usize = 0;
    let ghost dv = entries.deep_view();
    proof {
        assert(dv.subrange(0, 0) =~= Seq::<(Seq<char>, Seq<u8>)>::empty());
        assert(classes@.map_values(|cf: Classfile| classfile_view(cf)) =~~= spec_index(
            dv.subrange(0, 0),
        ));
    }
    while i < entries.len()
        invariant
            dv == entries.deep_view(),
            dv.len() == entries@.len(),
            suffix@ == ".class"@,
            i <= entries@.len(),
            classes@.map_values(|cf: Classfile| classfile_view(cf)) == spec_index(
                dv.subrange(0, i as int),
            ),
            forall|k: Seq<char>|
                classes@.contains_key(k) ==> (#[trigger] classes@[k]).fqdn@ == k,
        decreases entries@.len() - i,
    {
        let ghost pre = dv.subrange(0, i as int);
        let ghost post = dv.subrange(0, i + 1 as int);
        proof {
            assert(post.drop_last() =~= pre);
            assert(post.last() == dv[i as int]);
            assert(dv[i as int].0 == entries@[i as int].0@);
            assert(dv[i as int].1 == entries@[i as int].1@);
        }
        let name = str_to_chars(entries[i].0.as_str());
        if chars_end_with(&name, &suffix) {
            assert(ends_with(post.last().0, ".class"@));
            match Classfile::new(entries[i].1.as_slice()) {
                None => {
                    assert(spec_decode_bytes(dv[i as int].1) is None);
                    assert(spec_index(post) =~~= spec_index(pre));
                },
                Some(class) => {
                    let ghost m0 = classes@;
                    let ghost d = spec_decode_bytes(dv[i as int].1).unwrap();
                    assert(classfile_view(class) == d);
                    let key = class.fqdn.clone();
                    assert(key@ == d.0);
                    classes.insert(key, class);
                    proof {
                        assert(classes@ =~~= m0.insert(d.0, class));
                        assert(classes@.map_values(|cf: Classfile| classfile_view(cf))
                            =~~= m0.map_values(|cf: Classfile| classfile_view(cf)).insert(
                            d.0,
                            d,
                        ));
                        assert(spec_index(post) =~~= spec_index(pre).insert(d.0, d));
                    }
                },
            }
        } else {
            assert(!ends_with(post.last().0, ".class"@));
            assert(spec_index(post) =~~= spec_index(pre));
        }
        assert(classes@.map_values(|cf: Classfile| classfile_view(cf)) =~~= spec_index(post));
        i += 1;
    }
    assert(dv.subrange(0, entries@.len() as int) =~= dv);
    classes
}

} // verus!
