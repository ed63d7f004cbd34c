//! Choosing the memory regions for the heap and the framebuffer mirror.
use vstd::prelude::*;
use crate::mem::memmap::{MemmapEntry, MemoryMapEntryType, memory_section_is_usable};

verus! {

/// The largest usable region, the second largest and the last framebuffer
/// region among the first `k` regions, by index.
pub open spec fn region_scan(entries: Seq<MemmapEntry>, k: int) -> (Option<int>, Option<int>, Option<int>)
    decreases k,
{
    if k <= 0 {
        (None, None, None)
    } else {
        let (l, s, f) = region_scan(entries, k - 1);
        let e = entries[k - 1];
        if e.typ == MemoryMapEntryType::Framebuffer {
            (l, s, Some(k - 1))
        } else if !e.usable() {
            (l, s, f)
        } else if l is None || e.len > entries[l.unwrap()].len {
            (Some(k - 1), l, f)
        } else if s is None || e.len > entries[s.unwrap()].len {
            (l, Some(k - 1), f)
        } else {
            (l, s, f)
        }
    }
}

/// An optional position as an optional index.
pub open spec fn as_index(o: Option<int>) -> Option<usize> {
    match o {
        Some(i) => Some(i as usize),
        None => None,
    }
}

/// An optional index as an optional position.
pub open spec fn as_position(o: Option<usize>) -> Option<int> {
    match o {
        Some(i) => Some(i as int),
        None => None,
    }
}

proof fn lemma_region_scan_bounds(entries: Seq<MemmapEntry>, k: int)
    requires
        0 <= k <= entries.len(),
    ensures
        region_scan(entries, k).0 matches Some(i) ==> 0 <= i < k && entries[i].usable(),
        region_scan(entries, k).1 matches Some(i) ==> 0 <= i < k && entries[i].usable(),
        region_scan(entries, k).2 matches Some(i) ==> 0 <= i < k,
        region_scan(entries, k).1 is Some ==> region_scan(entries, k).0 is Some
            && region_scan(entries, k).0.unwrap() != region_scan(entries, k).1.unwrap(),
    decreases k,
{
    if k > 0 {
        lemma_region_scan_bounds(entries, k - 1);
    }
}

/// Finds the largest usable region for the heap and the second largest for
/// mirroring the framebuffer. When the second is smaller than the
/// framebuffer, the framebuffer's size is cut from the end of the largest and
/// the second is moved there, unless that leaves the heap under
/// `min_heap_size`. The result holds the regions' indices.
pub fn find_largest_memory_regions(memmap: &mut Vec<MemmapEntry>, min_heap_size: usize) -> (r: (Option<usize>, Option<usize>))
    requires
        ({
            let (l, s, f) = region_scan(old(memmap)@, old(memmap)@.len() as int);
            l is Some && s is Some && f is Some && old(memmap)@[s.unwrap()].len < old(memmap)@[f.unwrap()].len
                ==> {
                    &&& old(memmap)@[l.unwrap()].len >= old(memmap)@[f.unwrap()].len
                    &&& old(memmap)@[l.unwrap()].base + (old(memmap)@[l.unwrap()].len - old(memmap)@[f.unwrap()].len) <= usize::MAX
                }
        }),
    ensures
        ({
            let m0 = old(memmap)@;
            let (l, s, f) = region_scan(m0, m0.len() as int);
            if f is None || s is None {
                &&& r == (as_index(l), None::<usize>)
                &&& final(memmap)@ == m0
            } else if m0[s.unwrap()].len >= m0[f.unwrap()].len {
                &&& r == (Some(l.unwrap() as usize), Some(s.unwrap() as usize))
                &&& final(memmap)@ == m0
            } else {
                let shrunk = (m0[l.unwrap()].len - m0[f.unwrap()].len) as usize;
                if shrunk < min_heap_size {
                    &&& r == (Some(l.unwrap() as usize), None::<usize>)
                    &&& final(memmap)@ == m0
                } else {
                    &&& r == (Some(l.unwrap() as usize), Some(s.unwrap() as usize))
                    &&& final(memmap)@ == m0
                        .update(s.unwrap(), MemmapEntry { base: (m0[l.unwrap()].base + shrunk) as usize, ..m0[s.unwrap()] })
                        .update(l.unwrap(), MemmapEntry { len: shrunk, ..m0[l.unwrap()] })
                }
            }
        }),
{
    let mut largest_region: Option<usize> = None;
    let mut second_largest_region: Option<usize> = None;
    let mut framebuffer_region: Option<usize> = None;
    let ghost m0 = memmap@;
    let mut k: usize = 0;
    while k < memmap.len()
        invariant
            k <= memmap@.len(),
            memmap@ == m0,
            (as_position(largest_region), as_position(second_largest_region), as_position(framebuffer_region))
                == region_scan(m0, k as int),
        decreases memmap@.len() - k,
    {
        proof {
            lemma_region_scan_bounds(m0, k as int);
        }
        let region = memmap[k];
        match region.typ {
            MemoryMapEntryType::Framebuffer => {
                framebuffer_region = Some(k);
                k = k + 1;
                continue;
            },
            _ => {},
        }
        if !memory_section_is_usable(&region) {
            k = k + 1;
            continue;
        }
        let replace_largest = match largest_region {
            None => true,
            Some(li) => region.len > memmap[li].len,
        };
        if replace_largest {
            second_largest_region = largest_region;
            largest_region = Some(k);
        } else {
            let replace_second = match second_largest_region {
                None => true,
                Some(si) => region.len > memmap[si].len,
            };
            if replace_second {
                second_largest_region = Some(k);
            }
        }
        k = k + 1;
    }
    proof {
        lemma_region_scan_bounds(m0, m0.len() as int);
    }
    if framebuffer_region.is_none() || second_largest_region.is_none() {
        return (largest_region, None);
    }
    let fi = match framebuffer_region { Some(i) => i, None => 0 };
    let si = match second_largest_region { Some(i) => i, None => 0 };
    let li = match largest_region { Some(i) => i, None => 0 };
    let framebuffer_size = memmap[fi].len;
    if memmap[si].len >= framebuffer_size {
        return (largest_region, second_largest_region);
    }
    let shrunk_heap = memmap[li].len - framebuffer_size;
    if shrunk_heap < min_heap_size {
        return (largest_region, None);
    }
    let second = memmap[si];
    let largest = memmap[li];
    memmap.set(si, MemmapEntry { base: largest.base, ..second });
    memmap.set(li, MemmapEntry { len: shrunk_heap, ..largest });
    let second_now = memmap[si];
    memmap.set(si, MemmapEntry { base: second_now.base + shrunk_heap, ..second_now });
    proof {
        assert(memmap@ =~= m0
            .update(si as int, MemmapEntry { base: (m0[li as int].base + shrunk_heap) as usize, ..m0[si as int] })
            .update(li as int, MemmapEntry { len: shrunk_heap, ..m0[li as int] }));
    }
    (largest_region, second_largest_region)
}

/// A byte count in the largest unit that keeps it at least 1: GiB, MiB, KiB
/// or bytes.
pub fn label_units(bytes: usize) -> (r: (usize, &'static str))
    ensures
        bytes >> 30 > 0 ==> r.0 == bytes >> 30 && r.1@ == "GiB"@,
        bytes >> 30 == 0 && bytes >> 20 > 0 ==> r.0 == bytes >> 20 && r.1@ == "MiB"@,
        bytes >> 20 == 0 && bytes >> 10 > 0 ==> r.0 == bytes >> 10 && r.1@ == "KiB"@,
        bytes >> 10 == 0 ==> r.0 == bytes && r.1@ == "Bytes"@,
{
    assert(bytes >> 20 == 0 ==> bytes >> 30 == 0) by (bit_vector);
    assert(bytes >> 10 == 0 ==> bytes >> 20 == 0) by (bit_vector);
    if bytes >> 30 > 0 {
        (bytes >> 30, "GiB")
    } else if bytes >> 20 > 0 {
        (bytes >> 20, "MiB")
    } else if bytes >> 10 > 0 {
        (bytes >> 10, "KiB")
    } else {
        (bytes, "Bytes")
    }
}

} // verus!
