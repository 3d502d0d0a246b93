use swizzler::raster::Image;
use swizzler::{to_luma, to_luma_a, to_rgb, ChannelDescriptor};

fn rgb_2x2() -> Image {
    // Pixels (0,0)=[128,128,128] (1,0)=[0,135,97] (0,1)=[255,78,23] (1,1)=[100,0,255]
    Image::new(2, 2, 3, vec![128, 128, 128, 0, 135, 97, 255, 78, 23, 100, 0, 255]).unwrap()
}

#[test]
fn swizzle_grayscale() {
    let img = rgb_2x2();

    // Test with a `red` descriptor
    let descriptor = ChannelDescriptor::from_image(&img, 0).unwrap();
    let result = to_luma(&descriptor).unwrap();
    assert_eq!(result.dimensions(), (2, 2));
    assert_eq!(result.sample(0, 0, 0), 128);
    assert_eq!(result.sample(1, 0, 0), 0);
    assert_eq!(result.sample(0, 1, 0), 255);
    assert_eq!(result.sample(1, 1, 0), 100);

    // Test with a `green` descriptor
    let descriptor = ChannelDescriptor::from_image(&img, 1).unwrap();
    let result = to_luma(&descriptor).unwrap();
    assert_eq!(result.sample(0, 0, 0), 128);
    assert_eq!(result.sample(1, 0, 0), 135);
    assert_eq!(result.sample(0, 1, 0), 78);
    assert_eq!(result.sample(1, 1, 0), 0);

    // Test with a `blue` descriptor
    let descriptor = ChannelDescriptor::from_image(&img, 2).unwrap();
    let result = to_luma(&descriptor).unwrap();
    assert_eq!(result.sample(0, 0, 0), 128);
    assert_eq!(result.sample(1, 0, 0), 97);
    assert_eq!(result.sample(0, 1, 0), 23);
    assert_eq!(result.sample(1, 1, 0), 255);
}

#[test]
fn swizzle_luma_a() {
    // GrayAlpha 2x1: (0,0)=[0,250] (1,0)=[129,13]
    let img = Image::new(2, 1, 2, vec![0, 250, 129, 13]).unwrap();

    // Test with a `red` descriptor
    let descriptor_r = Some(ChannelDescriptor::from_image(&img, 1).unwrap());
    let result = to_luma_a(&descriptor_r, &None).unwrap();
    assert_eq!(result.dimensions(), (2, 1));
    assert_eq!(result.sample(0, 0, 0), 250);
    assert_eq!(result.sample(0, 0, 1), 255);
    assert_eq!(result.sample(1, 0, 0), 13);
    assert_eq!(result.sample(1, 0, 1), 255);

    // Test with a `red` + `alpha` descriptors
    let descriptor_a = Some(ChannelDescriptor::from_image(&img, 0).unwrap());
    let result = to_luma_a(&descriptor_r, &descriptor_a).unwrap();
    assert_eq!(result.sample(0, 0, 0), 250);
    assert_eq!(result.sample(0, 0, 1), 0);
    assert_eq!(result.sample(1, 0, 0), 13);
    assert_eq!(result.sample(1, 0, 1), 129);
}

#[test]
fn swizzle_rgb() {
    // RGBA 2x1: (0,0)=[1,2,3,255] (1,0)=[127,128,126,0]
    let img = Image::new(2, 1, 4, vec![1, 2, 3, 255, 127, 128, 126, 0]).unwrap();

    // Test with a `green` descriptor only
    let result = to_rgb(
        &None,
        &Some(ChannelDescriptor::from_image(&img, 3).unwrap()),
        &None,
    )
    .unwrap();
    assert_eq!(result.dimensions(), (2, 1));
    assert_eq!(result.sample(0, 0, 0), 0);
    assert_eq!(result.sample(0, 0, 1), 255);
    assert_eq!(result.sample(0, 0, 2), 0);
    assert_eq!(result.sample(1, 0, 0), 0);
    assert_eq!(result.sample(1, 0, 1), 0);
    assert_eq!(result.sample(1, 0, 2), 0);

    // Test with all channels set
    let result = to_rgb(
        &Some(ChannelDescriptor::from_image(&img, 2).unwrap()),
        &Some(ChannelDescriptor::from_image(&img, 1).unwrap()),
        &Some(ChannelDescriptor::from_image(&img, 0).unwrap()),
    )
    .unwrap();
    assert_eq!(result.dimensions(), (2, 1));
    assert_eq!(result.sample(0, 0, 0), 3);
    assert_eq!(result.sample(0, 0, 1), 2);
    assert_eq!(result.sample(0, 0, 2), 1);
    assert_eq!(result.sample(1, 0, 0), 126);
    assert_eq!(result.sample(1, 0, 1), 128);
    assert_eq!(result.sample(1, 0, 2), 127);
}
