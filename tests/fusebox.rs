use fusebox::layout::{is_power_of_two, round_up};
use fusebox::{DynRef, ElemLayout, Element, FuseBox};
use std::mem::{align_of, size_of};

#[derive(Clone, Copy, Debug, PartialEq)]
enum Kind {
    U8,
    U16,
    U32,
    U64,
    U128,
    Bytes,
}

fn layout(size: usize, align: usize) -> ElemLayout {
    ElemLayout::from_size_align(size, align).unwrap()
}

fn elem(bytes: Vec<u8>, size: usize, align: usize, kind: Kind) -> Element<Kind> {
    Element::new(bytes, layout(size, align), kind).unwrap()
}

fn e_u8(v: u8) -> Element<Kind> {
    elem(vec![v], 1, 1, Kind::U8)
}

fn e_u16(v: u16) -> Element<Kind> {
    elem(v.to_le_bytes().to_vec(), size_of::<u16>(), align_of::<u16>(), Kind::U16)
}

fn e_u32(v: u32) -> Element<Kind> {
    elem(v.to_le_bytes().to_vec(), size_of::<u32>(), align_of::<u32>(), Kind::U32)
}

fn e_u64(v: u64) -> Element<Kind> {
    elem(v.to_le_bytes().to_vec(), size_of::<u64>(), align_of::<u64>(), Kind::U64)
}

fn e_u128(v: u128) -> Element<Kind> {
    elem(v.to_le_bytes().to_vec(), size_of::<u128>(), align_of::<u128>(), Kind::U128)
}

fn e_bytes(b: &[u8]) -> Element<Kind> {
    elem(b.to_vec(), b.len(), 1, Kind::Bytes)
}

fn value(kind: Kind, data: &[u8]) -> u128 {
    let mut v: u128 = 0;
    for (i, b) in data.iter().enumerate() {
        v |= (*b as u128) << (8 * i);
    }
    match kind {
        Kind::Bytes => panic!("not a number"),
        _ => v,
    }
}

fn show(d: &DynRef<'_, Kind>) -> String {
    match d.meta {
        Kind::Bytes => format!("{:?}", d.data),
        k => format!("{}", value(*k, d.data)),
    }
}

fn shown(fb: &FuseBox<Kind>) -> Vec<String> {
    let mut out = Vec::new();
    let mut it = fb.iter();
    while let Some(d) = it.next() {
        out.push(show(&d));
    }
    out
}

fn offsets(fb: &FuseBox<Kind>) -> Vec<usize> {
    let mut out = Vec::new();
    let mut it = fb.iter();
    while let Some(d) = it.next() {
        out.push(d.offset);
    }
    out
}

fn shl_one(kind: Kind, data: &mut [u8]) {
    let bits = 8 * data.len() as u32;
    let v = value(kind, data);
    let shifted = if bits >= 128 { v << 1 } else { (v << 1) & ((1u128 << bits) - 1) };
    for (i, b) in data.iter_mut().enumerate() {
        *b = (shifted >> (8 * i)) as u8;
    }
}

#[test]
fn test_test() {
    let mut fb = FuseBox::<Kind>::default();
    fb.push(e_u64(16));
    fb.push(e_u8(1));
    fb.push(e_u8(2));
    fb.push(e_bytes(&[1u8; 5]));
    assert_eq!(shown(&fb), vec!["16", "1", "2", "[1, 1, 1, 1, 1]"]);
    assert_eq!(offsets(&fb), vec![0, 8, 9, 10]);
}

#[test]
fn silly() {
    let mut fb = FuseBox::<Kind>::default();
    fb.push(e_bytes(&[0; 2]));
    fb.push(e_bytes(&[0; 4]));
    fb.push(e_bytes(&[0; 8]));
    fb.push(e_bytes(&[0; 16]));
    assert_eq!(fb.len(), 4);
    let mut it = fb.iter();
    let mut lens = Vec::new();
    while let Some(d) = it.next() {
        assert!(d.data.iter().all(|b| *b == 0));
        lens.push(d.data.len());
    }
    assert_eq!(lens, vec![2, 4, 8, 16]);
    assert_eq!(offsets(&fb), vec![0, 2, 6, 14]);
}

#[test]
fn issue4() {
    let mut fb = FuseBox::<Kind>::default();
    fb.push(e_u8(42));
    fb.push(e_u128(1337));
    assert_eq!(shown(&fb), vec!["42", "1337"]);
    let d = fb.get(1).unwrap();
    assert_eq!(d.offset % align_of::<u128>(), 0);
    assert_eq!(d.offset, align_of::<u128>());
}

#[test]
fn issue5() {
    let mut x: FuseBox<Kind> = FuseBox::new();
    x.push(e_u8(0));
    x.push(e_u8(0));

    x.push(e_u16(0));
    x.push(e_u8(0));
    x.push(e_u8(0));
    x.push(e_u8(0));
    x.push(e_u8(0));

    x.push(e_u16(0));
    x.push(e_u32(0));
    assert_eq!(x.len(), 9);
    assert_eq!(offsets(&x), vec![0, 1, 2, 4, 5, 6, 7, 8, 12]);
    assert!(shown(&x).iter().all(|s| s == "0"));
    assert!(x.capacity() >= 16);
}

#[test]
fn test_mutate() {
    let mut fb = FuseBox::<Kind>::default();
    fb.push(e_u64(16));
    fb.push(e_u8(1));
    fb.push(e_u8(2));
    fb.push(e_u32(5));
    assert_eq!(shown(&fb), vec!["16", "1", "2", "5"]);
    {
        let mut it = fb.iter_mut();
        while let Some(d) = it.next() {
            shl_one(*d.meta, d.data);
        }
    }
    assert_eq!(shown(&fb), vec!["32", "2", "4", "10"]);
}

#[test]
fn mixed_sizes_read_back_by_index() {
    let mut fb = FuseBox::<Kind>::new();
    fb.push(e_u8(0xAA));
    fb.push(e_u128(u128::MAX - 1));
    fb.push(e_u16(0xBEEF));
    fb.push(e_bytes(&[9, 8, 7]));
    fb.push(e_u64(0x0102_0304_0506_0708));
    fb.push(e_u32(0xDEAD_BEEF));
    assert_eq!(show(&fb.get(0).unwrap()), "170");
    assert_eq!(show(&fb.get(1).unwrap()), format!("{}", u128::MAX - 1));
    assert_eq!(show(&fb.get(2).unwrap()), "48879");
    assert_eq!(show(&fb.get(3).unwrap()), "[9, 8, 7]");
    assert_eq!(show(&fb.get(4).unwrap()), format!("{}", 0x0102_0304_0506_0708u64));
    assert_eq!(show(&fb.get(5).unwrap()), format!("{}", 0xDEAD_BEEFu32));
    assert_eq!(*fb.get(3).unwrap().meta, Kind::Bytes);
    assert_eq!(fb.get(4).unwrap().layout.size(), 8);
}

#[test]
fn every_offset_is_aligned() {
    let mut fb = FuseBox::<Kind>::new();
    fb.push(e_u128(1));
    fb.push(e_u8(2));
    fb.push(e_u64(3));
    fb.push(e_u8(4));
    fb.push(e_u16(5));
    fb.push(e_u128(6));
    fb.push(e_u32(7));
    let mut it = fb.iter();
    let mut prev_end = 0;
    while let Some(d) = it.next() {
        let align = d.layout.align();
        assert_eq!(d.offset % align, 0);
        assert!(d.offset >= prev_end);
        assert!(d.offset < prev_end + align);
        prev_end = d.offset + d.layout.size();
    }
}

#[test]
fn one_byte_eight_bytes_one_byte() {
    let mut fb = FuseBox::<Kind>::new();
    fb.push(e_u8(1));
    fb.push(e_u64(0x1122_3344_5566_7788));
    fb.push(e_u8(3));
    assert_eq!(offsets(&fb), vec![0, 8, 16]);
    assert_eq!(shown(&fb), vec!["1", format!("{}", 0x1122_3344_5566_7788u64).as_str(), "3"]);
}

#[test]
fn empty_container() {
    let fb = FuseBox::<Kind>::new();
    assert_eq!(fb.len(), 0);
    assert!(fb.is_empty());
    assert!(fb.get(0).is_none());
    assert_eq!(fb.capacity(), 0);
    let mut it = fb.iter();
    assert_eq!(it.len(), 0);
    assert!(it.next().is_none());
    assert!(fb.iter().last().is_none());
    let mut fb = fb;
    assert!(fb.get_mut(0).is_none());
    assert!(fb.iter_mut().next().is_none());
}

#[test]
fn growth_keeps_elements_and_order() {
    let mut fb = FuseBox::<Kind>::new();
    let mut caps = Vec::new();
    for i in 0..20u8 {
        fb.push(e_u8(i));
        caps.push(fb.capacity());
        for j in 0..=i {
            assert_eq!(fb.get(j as usize).unwrap().data, &[j][..]);
        }
    }
    // 1, then 2 * 1 + 1, 2 * 3 + 1, 2 * 7 + 1, 2 * 15 + 1
    assert_eq!(caps[0], 1);
    assert_eq!(caps[1], 3);
    assert_eq!(caps[3], 7);
    assert_eq!(caps[7], 15);
    assert_eq!(caps[19], 31);
    let expected: Vec<String> = (0..20u8).map(|i| i.to_string()).collect();
    assert_eq!(shown(&fb), expected);
}

#[test]
fn growth_rounds_to_max_alignment() {
    let mut fb = FuseBox::<Kind>::new();
    fb.push(e_u8(1));
    assert_eq!(fb.capacity(), 1);
    fb.push(e_u64(2));
    // 2 * 1 + 8 = 10, rounded up to 8
    assert_eq!(fb.capacity(), 16);
    assert_eq!(offsets(&fb), vec![0, 8]);
}

#[test]
fn length_counts_pushes() {
    let mut fb = FuseBox::<Kind>::new();
    for i in 0..10usize {
        assert_eq!(fb.len(), i);
        fb.push(e_u16(i as u16));
        assert_eq!(fb.len(), i + 1);
        assert!(!fb.is_empty());
    }
}

#[test]
fn zero_sized_element_takes_no_room() {
    let mut fb = FuseBox::<Kind>::new();
    fb.push(elem(Vec::new(), 0, 1, Kind::Bytes));
    assert_eq!(fb.capacity(), 0);
    fb.push(e_u8(5));
    fb.push(elem(Vec::new(), 0, 1, Kind::Bytes));
    assert_eq!(fb.capacity(), 1);
    assert_eq!(offsets(&fb), vec![0, 0, 1]);
    assert_eq!(fb.get(2).unwrap().data.len(), 0);
    assert_eq!(show(&fb.get(1).unwrap()), "5");
}

#[test]
fn push_with_metadata_stores_what_it_is_given() {
    let mut fb = FuseBox::<Kind>::new();
    fb.push_with_metadata(vec![4, 0, 0, 0], layout(4, 4), Kind::U32);
    fb.push_with_metadata(vec![7], layout(1, 1), Kind::U8);
    let d = fb.index(0);
    assert_eq!(*d.meta, Kind::U32);
    assert_eq!(d.data, &[4, 0, 0, 0][..]);
    assert_eq!(show(&fb.index(1)), "7");
}

#[test]
fn get_mut_writes_one_element_only() {
    let mut fb = FuseBox::<Kind>::new();
    fb.push(e_u8(1));
    fb.push(e_u32(2));
    fb.push(e_u8(3));
    {
        let d = fb.get_mut(1).unwrap();
        assert_eq!(d.offset, 4);
        d.data.copy_from_slice(&0xFFFF_FFFFu32.to_le_bytes());
    }
    assert_eq!(shown(&fb), vec!["1", "4294967295", "3"]);
    {
        let d = fb.index_mut(2);
        d.data[0] = 30;
    }
    assert_eq!(shown(&fb), vec!["1", "4294967295", "30"]);
    assert!(fb.get_mut(3).is_none());
}

#[test]
fn cursor_len_last_and_nth() {
    let mut fb = FuseBox::<Kind>::new();
    for i in 0..6u16 {
        fb.push(e_u16(i * 10));
    }
    let mut it = fb.iter();
    assert_eq!(it.len(), 6);
    assert_eq!(show(&it.next().unwrap()), "0");
    assert_eq!(it.len(), 5);
    assert_eq!(show(&it.nth(2).unwrap()), "30");
    assert_eq!(it.len(), 2);
    assert_eq!(show(&it.last().unwrap()), "50");
    let mut it = fb.iter();
    assert!(it.nth(6).is_none());
    assert_eq!(it.len(), 0);
    assert!(it.next().is_none());
    let mut it = fb.iter_mut();
    assert_eq!(it.len(), 6);
    it.next();
    assert_eq!(it.len(), 5);
}

#[test]
fn layout_rules() {
    assert!(ElemLayout::from_size_align(4, 3).is_none());
    assert!(ElemLayout::from_size_align(4, 0).is_none());
    assert!(ElemLayout::from_size_align(usize::MAX, 1).is_none());
    assert!(ElemLayout::from_size_align(usize::MAX / 2, 2).is_none());
    assert!(ElemLayout::from_size_align(usize::MAX / 2, 1).is_some());
    let l = ElemLayout::from_size_align(12, 4).unwrap();
    assert_eq!((l.size(), l.align()), (12, 4));
    assert!(Element::new(vec![1, 2], l, Kind::U8).is_none());
}

#[test]
fn round_up_values() {
    assert_eq!(round_up(0, 8), 0);
    assert_eq!(round_up(1, 8), 8);
    assert_eq!(round_up(8, 8), 8);
    assert_eq!(round_up(9, 8), 16);
    assert_eq!(round_up(10, 4), 12);
    assert_eq!(round_up(7, 0), 7);
    assert!(is_power_of_two(1));
    assert!(is_power_of_two(64));
    assert!(!is_power_of_two(0));
    assert!(!is_power_of_two(12));
}
