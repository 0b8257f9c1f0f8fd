use rustty::font::atlas::{Atlas, AtlasFullError, Format, Region};

#[test]
fn reserve_and_set_grayscale() {
    let mut atlas = Atlas::new(32, Format::Grayscale);
    let reg = atlas.reserve(2, 2).unwrap();
    assert_eq!(reg.x, 1);
    assert_eq!(reg.y, 1);
    atlas.set(reg, &[1, 2, 3, 4]);
    let off = |x: u32, y: u32| (y * atlas.size() + x) as usize;
    assert_eq!(atlas.data()[off(1, 1)], 1);
    assert_eq!(atlas.data()[off(2, 1)], 2);
    assert_eq!(atlas.data()[off(1, 2)], 3);
    assert_eq!(atlas.data()[off(2, 2)], 4);
}

#[test]
fn reserve_too_large_fails() {
    let mut atlas = Atlas::new(32, Format::Grayscale);
    let result = atlas.reserve(31, 31);
    assert!(result.is_err());
}

#[test]
fn zero_size_reserve() {
    let mut atlas = Atlas::new(32, Format::Grayscale);
    let reg = atlas.reserve(0, 0).unwrap();
    assert_eq!(reg.width, 0);
    assert_eq!(reg.height, 0);
}

#[test]
fn full_then_fail() {
    let mut atlas = Atlas::new(4, Format::Grayscale);
    let _r = atlas.reserve(2, 2).unwrap();
    let result = atlas.reserve(1, 1);
    assert!(result.is_err());
}

#[test]
fn grow_preserves_data() {
    let mut atlas = Atlas::new(4, Format::Grayscale);
    let reg = atlas.reserve(2, 2).unwrap();
    atlas.set(reg, &[1, 2, 3, 4]);

    assert_eq!(atlas.data()[(atlas.size() + 1) as usize], 1);
    assert_eq!(atlas.data()[(atlas.size() + 2) as usize], 2);

    let old_modified = atlas.modified();
    let old_resized = atlas.resized();

    atlas.grow(atlas.size() + 1);

    assert!(atlas.modified() > old_modified);
    assert!(atlas.resized() > old_resized);

    assert_eq!(atlas.data()[(atlas.size() + 1) as usize], 1);
    assert_eq!(atlas.data()[(atlas.size() + 2) as usize], 2);
    assert_eq!(atlas.data()[(atlas.size() * 2 + 1) as usize], 3);
    assert_eq!(atlas.data()[(atlas.size() * 2 + 2) as usize], 4);

    atlas.reserve(1, 1).unwrap();
}

#[test]
fn grow_bgra_preserves_data() {
    let mut atlas = Atlas::new(4, Format::Bgra);
    let reg = atlas.reserve(2, 2).unwrap();
    atlas.set(
        reg,
        &[10, 11, 12, 13, 14, 15, 16, 17, 20, 21, 22, 23, 24, 25, 26, 27],
    );

    let depth = atlas.format().depth() as usize;
    let tl = (atlas.size() as usize * depth) + depth;
    assert_eq!(atlas.data()[tl], 10);
    assert_eq!(atlas.data()[tl + 4], 14);

    atlas.grow(atlas.size() + 1);

    let tl = (atlas.size() as usize * depth) + depth;
    assert_eq!(atlas.data()[tl], 10);
    assert_eq!(atlas.data()[tl + 4], 14);
    let row2 = tl + (atlas.size() as usize * depth);
    assert_eq!(atlas.data()[row2], 20);
    assert_eq!(atlas.data()[row2 + 4], 24);
}

#[test]
fn clear_resets_state() {
    let mut atlas = Atlas::new(32, Format::Grayscale);
    let reg = atlas.reserve(4, 4).unwrap();
    atlas.set(reg, &[1u8; 16]);
    atlas.clear();
    atlas.reserve(30, 30).unwrap();
}

#[test]
fn modified_increments_on_set() {
    let mut atlas = Atlas::new(32, Format::Grayscale);
    let reg = atlas.reserve(1, 1).unwrap();
    let before = atlas.modified();
    atlas.set(reg, &[255]);
    assert!(atlas.modified() > before);
}

#[test]
fn set_from_larger() {
    let mut atlas = Atlas::new(32, Format::Grayscale);
    let reg = atlas.reserve(2, 2).unwrap();
    let src = [0, 0, 0, 0, 0, 0, 1, 2, 0, 0, 0, 3, 4, 0, 0, 0, 0, 0, 0, 0];
    let old = atlas.modified();
    atlas.set_from_larger(reg, &src, 5, 1, 1);
    assert!(atlas.modified() > old);

    let off = |x: u32, y: u32| (y * atlas.size() + x) as usize;
    assert_eq!(atlas.data()[off(reg.x, reg.y)], 1);
    assert_eq!(atlas.data()[off(reg.x + 1, reg.y)], 2);
    assert_eq!(atlas.data()[off(reg.x, reg.y + 1)], 3);
    assert_eq!(atlas.data()[off(reg.x + 1, reg.y + 1)], 4);
}

fn overlap(a: Region, b: Region) -> bool {
    a.x < b.x + b.width && b.x < a.x + a.width && a.y < b.y + b.height && b.y < a.y + a.height
}

#[test]
fn reservations_stay_apart_and_inside() {
    let mut atlas = Atlas::new(64, Format::Grayscale);
    let sizes = [(10, 5), (3, 17), (20, 20), (1, 1), (30, 4), (8, 8), (5, 40)];
    let mut taken: Vec<Region> = Vec::new();
    for (w, h) in sizes {
        let reg = atlas.reserve(w, h).unwrap();
        assert_eq!((reg.width, reg.height), (w, h));
        assert!(reg.x >= 1 && reg.x + w <= 63);
        assert!(reg.y >= 1 && reg.y + h <= 63);
        for other in &taken {
            assert!(!overlap(reg, *other));
        }
        taken.push(reg);
    }
}

#[test]
fn an_empty_atlas_takes_all_of_its_inside() {
    let mut atlas = Atlas::new(16, Format::Grayscale);
    let reg = atlas.reserve(14, 14).unwrap();
    assert_eq!((reg.x, reg.y, reg.width, reg.height), (1, 1, 14, 14));
}

#[test]
fn regions_go_where_they_end_lowest() {
    let mut atlas = Atlas::new(32, Format::Grayscale);
    let a = atlas.reserve(10, 8).unwrap();
    let b = atlas.reserve(10, 4).unwrap();
    let c = atlas.reserve(20, 3).unwrap();
    assert_eq!((a.x, a.y), (1, 1));
    assert_eq!((b.x, b.y), (11, 1));
    // 20 columns from 11 on: the highest of what is below them is 4.
    assert_eq!((c.x, c.y), (11, 5));
}

#[test]
fn a_full_atlas_says_so() {
    let mut atlas = Atlas::new(8, Format::Grayscale);
    assert_eq!(atlas.reserve(7, 1), Err(AtlasFullError));
    assert_eq!(atlas.modified(), 0);
    assert!(!AtlasFullError.message().is_empty());
}

#[test]
fn writing_changes_nothing_else() {
    let mut atlas = Atlas::new(8, Format::Grayscale);
    let a = atlas.reserve(2, 2).unwrap();
    let b = atlas.reserve(2, 2).unwrap();
    atlas.set(a, &[1, 2, 3, 4]);
    atlas.set(b, &[5, 6, 7, 8]);
    let at = |r: Region, i: u32, j: u32| atlas.data()[((r.y + j) * 8 + r.x + i) as usize];
    assert_eq!([at(a, 0, 0), at(a, 1, 0), at(a, 0, 1), at(a, 1, 1)], [1, 2, 3, 4]);
    assert_eq!([at(b, 0, 0), at(b, 1, 0), at(b, 0, 1), at(b, 1, 1)], [5, 6, 7, 8]);
    assert_eq!(atlas.data().iter().map(|v| *v as u32).sum::<u32>(), 36);
}

#[test]
fn requests_go_to_the_lowest_row_and_are_refused_only_without_room() {
    let mut atlas = Atlas::new(24, Format::Grayscale);
    let mut regions: Vec<Region> = Vec::new();
    let sky = |regions: &[Region], x: u32, width: u32| {
        regions
            .iter()
            .filter(|r| r.x < x + width && x < r.x + r.width)
            .map(|r| r.y + r.height)
            .max()
            .unwrap_or(1)
            .max(1)
    };
    let mut seed: u32 = 7;
    let mut refused = 0;
    for round in 0..60 {
        seed = seed.wrapping_mul(1_103_515_245).wrapping_add(12_345);
        let width = seed / 65_536 % 9 + 1;
        let height = seed / 1_048_576 % 7 + 1;
        let last = atlas.size() - 1;
        let columns: Vec<u32> = (1..=last).filter(|x| x + width <= last).collect();
        let room = columns.iter().any(|x| sky(&regions, *x, width) + height <= last);
        match atlas.reserve(width, height) {
            Ok(region) => {
                assert!(room);
                assert_eq!(region.y, sky(&regions, region.x, width));
                assert!(columns.iter().all(|x| region.y <= sky(&regions, *x, width)));
                regions.push(region);
            }
            Err(AtlasFullError) => {
                assert!(!room);
                refused += 1;
            }
        }
        if round == 40 {
            atlas.grow(40);
        }
    }
    assert!(refused > 0 && regions.len() > 10);
}
