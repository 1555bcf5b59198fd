use laya::image::{AbsoluteRegion, Crop, Dimensions2, Region, Scale};

#[test]
fn full_region_at_max_size() {
    let dims = Dimensions2 { width: 1000, height: 800 };
    let crop = dims.crop_and_scale(Region::Full, Scale::Max).unwrap();
    assert_eq!(
        crop,
        Crop { hires_region: AbsoluteRegion { x: 0, y: 0, width: 1000, height: 800 }, scale: (1000, 800) }
    );
}

#[test]
fn absolute_region_at_a_fixed_size() {
    let dims = Dimensions2 { width: 1000, height: 800 };
    let region = Region::Absolute { x: 10, y: 20, width: 300, height: 200 };
    let crop = dims.crop_and_scale(region, Scale::Fixed { width: 150, height: 100 }).unwrap();
    assert_eq!(crop.hires_region, AbsoluteRegion { x: 10, y: 20, width: 300, height: 200 });
    assert_eq!(crop.scale, (150, 100));
}

#[test]
fn sizes_by_one_side_keep_the_aspect_ratio() {
    let dims = Dimensions2 { width: 1000, height: 800 };
    assert_eq!(dims.crop_and_scale(Region::Full, Scale::FixedWidth(500)).unwrap().scale, (500, 400));
    assert_eq!(dims.crop_and_scale(Region::Full, Scale::FixedWidth(333)).unwrap().scale, (333, 266));
    assert_eq!(dims.crop_and_scale(Region::Full, Scale::FixedHeight(400)).unwrap().scale, (500, 400));
    assert_eq!(dims.crop_and_scale(Region::Full, Scale::FixedHeight(3)).unwrap().scale, (3, 3));
}

#[test]
fn a_width_only_size_keeps_the_aspect_ratio_of_the_region() {
    let dims = Dimensions2 { width: 1000, height: 500 };
    let region = Region::Absolute { x: 0, y: 0, width: 200, height: 200 };
    let crop = dims.crop_and_scale(region, Scale::FixedWidth(100)).unwrap();
    assert_eq!(
        crop,
        Crop { hires_region: AbsoluteRegion { x: 0, y: 0, width: 200, height: 200 }, scale: (100, 100) }
    );
    let tall = Region::Absolute { x: 0, y: 0, width: 100, height: 300 };
    assert_eq!(dims.crop_and_scale(tall, Scale::FixedHeight(150)).unwrap().scale, (50, 150));
}

#[test]
fn max_on_a_cropped_region_is_the_region_itself() {
    let dims = Dimensions2 { width: 1000, height: 500 };
    let region = Region::Absolute { x: 10, y: 20, width: 300, height: 200 };
    let crop = dims.crop_and_scale(region, Scale::Max).unwrap();
    assert_eq!(
        crop,
        Crop { hires_region: AbsoluteRegion { x: 10, y: 20, width: 300, height: 200 }, scale: (300, 200) }
    );
}

#[test]
fn sizes_by_one_side_need_an_output_size() {
    let dims = Dimensions2 { width: 1000, height: 500 };
    let flat = Region::Absolute { x: 0, y: 0, width: 0, height: 10 };
    assert_eq!(dims.crop_and_scale(flat, Scale::FixedWidth(5)), None);
    assert_eq!(dims.crop_and_scale(flat, Scale::FixedHeight(5)).unwrap().scale, (0, 5));
    let thin = Region::Absolute { x: 0, y: 0, width: 1, height: 4_000_000_000 };
    assert_eq!(dims.crop_and_scale(thin, Scale::FixedWidth(2)), None);
    assert_eq!(dims.crop_and_scale(thin, Scale::FixedWidth(1)).unwrap().scale, (1, 4_000_000_000));
}
