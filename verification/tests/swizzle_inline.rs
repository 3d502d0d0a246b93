use swizzler::raster::Image;
use swizzler::{to_luma, to_luma_a, to_rgb, to_rgba, ChannelDescriptor};

#[test]
fn swizzle_swizzle_grayscale() {
    let img =
        Image::new(2, 2, 3, vec![128, 128, 128, 0, 135, 97, 255, 78, 23, 100, 0, 255]).unwrap();

    // Test with a `red` descriptor
    let descriptor = ChannelDescriptor::from_image(&img, 0).unwrap();
    let result = to_luma(&descriptor).unwrap();
    assert_eq!(result.dimensions(), (2, 2));
    assert_eq!(
        result.data(),
        &vec![128, 0, 255, 100],
        "grayscale from red channel"
    );

    // Test with a `green` descriptor
    let descriptor = ChannelDescriptor::from_image(&img, 1).unwrap();
    let result = to_luma(&descriptor).unwrap();
    assert_eq!(result.data(), &vec![128, 135, 78, 0]);

    // Test with a `blue` descriptor
    let descriptor = ChannelDescriptor::from_image(&img, 2).unwrap();
    let result = to_luma(&descriptor).unwrap();
    assert_eq!(result.data(), &vec![128, 97, 23, 255]);
}

#[test]
fn swizzle_swizzle_luma_a() {
    let img = Image::new(2, 1, 2, vec![0, 250, 129, 13]).unwrap();

    // Test with a `red` descriptor
    let descriptor_r = Some(ChannelDescriptor::from_image(&img, 1).unwrap());
    let result = to_luma_a(&descriptor_r, &None).unwrap();
    assert_eq!(result.dimensions(), (2, 1));
    assert_eq!(result.data(), &vec![250, 255, 13, 255]);

    // Test with a `red` + `alpha` descriptors
    let descriptor_a = Some(ChannelDescriptor::from_image(&img, 0).unwrap());
    let result = to_luma_a(&descriptor_r, &descriptor_a).unwrap();
    assert_eq!(result.data(), &vec![250, 0, 13, 129]);
}

#[test]
fn swizzle_swizzle_rgb() {
    let img = Image::new(2, 1, 4, vec![1, 2, 3, 255, 127, 128, 126, 0]).unwrap();

    // Test to set only the `green` channel
    let result = to_rgb(
        &None,
        &Some(ChannelDescriptor::from_image(&img, 3).unwrap()),
        &None,
    )
    .unwrap();
    assert_eq!(result.dimensions(), (2, 1));
    assert_eq!(result.data(), &vec![0, 255, 0, 0, 0, 0]);

    // Test to set all channels
    let result = to_rgb(
        &Some(ChannelDescriptor::from_image(&img, 2).unwrap()),
        &Some(ChannelDescriptor::from_image(&img, 1).unwrap()),
        &Some(ChannelDescriptor::from_image(&img, 0).unwrap()),
    )
    .unwrap();
    assert_eq!(result.data(), &vec![3, 2, 1, 126, 128, 127]);
}

#[test]
fn swizzle_rgba() {
    let img = Image::new(2, 1, 4, vec![255, 128, 0, 0, 0, 128, 255, 255]).unwrap();

    // Test to set the `red` and `alpha` channels
    let result = to_rgba(
        &Some(ChannelDescriptor::from_image(&img, 0).unwrap()),
        &None,
        &None,
        &Some(ChannelDescriptor::from_image(&img, 3).unwrap()),
    )
    .unwrap();
    assert_eq!(result.dimensions(), (2, 1));
    assert_eq!(result.data(), &vec![255, 0, 0, 0, 0, 0, 0, 255]);

    // Test to set all channels
    let result = to_rgba(
        &Some(ChannelDescriptor::from_image(&img, 3).unwrap()),
        &Some(ChannelDescriptor::from_image(&img, 2).unwrap()),
        &Some(ChannelDescriptor::from_image(&img, 1).unwrap()),
        &Some(ChannelDescriptor::from_image(&img, 0).unwrap()),
    )
    .unwrap();
    assert_eq!(result.data(), &vec![0, 0, 128, 255, 255, 255, 128, 0]);
}

#[test]
fn swizzle_rgba_multisources() {
    // GrayAlpha 2x1
    let img_1 = Image::new(2, 1, 2, vec![77, 128, 255, 0]).unwrap();
    // RGBA 2x1
    let img_2 = Image::new(2, 1, 4, vec![128, 129, 130, 131, 42, 40, 12, 132]).unwrap();
    // Gray 2x1
    let img_3 = Image::new(2, 1, 1, vec![1, 2]).unwrap();
    // RGB 2x1
    let img_4 = Image::new(2, 1, 3, vec![78, 79, 80, 5, 6, 7]).unwrap();

    let result = to_rgba(
        &Some(ChannelDescriptor::from_image(&img_1, 1).unwrap()),
        &Some(ChannelDescriptor::from_image(&img_2, 3).unwrap()),
        &Some(ChannelDescriptor::from_image(&img_3, 0).unwrap()),
        &Some(ChannelDescriptor::from_image(&img_4, 2).unwrap()),
    )
    .unwrap();
    assert_eq!(result.data(), &vec![128, 131, 1, 80, 0, 132, 2, 7]);
}

#[test]
fn use_non_matching_dimensions() {
    // Gray 2x1
    let img_1 = Image::new(2, 1, 1, vec![1, 2]).unwrap();
    // RGB 1x1
    let img_2 = Image::new(1, 1, 3, vec![0, 0, 0]).unwrap();

    let result = to_rgba(
        &Some(ChannelDescriptor::from_image(&img_1, 1).unwrap()),
        &Some(ChannelDescriptor::from_image(&img_2, 3).unwrap()),
        &None,
        &None,
    );

    assert!(result.is_err(), "result should because of invalid dimensions");
}
