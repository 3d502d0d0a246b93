use swizzler::format::{parse_image_format, OutputFormat};
use swizzler::parse_description;
use swizzler::paths::{file_name, parent_of, path_join, str_eq, strip_prefix};
use swizzler::resolver::{DefaultTexturesResolver, Swizzler, Textures, TexturesResolver, UnitySwizzler};
use swizzler::errors::ErrorKind;

#[test]
fn parse_image_format_accepts_every_known_name() {
    assert_eq!(parse_image_format("png"), Ok(OutputFormat::Png));
    assert_eq!(parse_image_format("jpg"), Ok(OutputFormat::Jpeg));
    assert_eq!(parse_image_format("jpeg"), Ok(OutputFormat::Jpeg));
    assert_eq!(parse_image_format("tif"), Ok(OutputFormat::Tiff));
    assert_eq!(parse_image_format("tga"), Ok(OutputFormat::Tga));
    assert_eq!(parse_image_format("hdr"), Ok(OutputFormat::Hdr));
    assert_eq!(parse_image_format("bmp"), Ok(OutputFormat::Bmp));
    assert_eq!(parse_image_format("webp"), Ok(OutputFormat::Webp));
    assert_eq!(parse_image_format("ico"), Ok(OutputFormat::Ico));
    assert_eq!(parse_image_format("pnm"), Ok(OutputFormat::Pnm));
}

#[test]
fn parse_image_format_names_the_unknown_name() {
    assert_eq!(
        parse_image_format("gif"),
        Err(String::from("unsupported format 'gif'"))
    );
    assert!(parse_image_format("PNG").is_err());
}

#[test]
fn parse_description_splits_path_and_channel() {
    assert_eq!(
        parse_description("./input.png:0"),
        Ok((String::from("./input.png"), 0))
    );
    assert_eq!(parse_description("a:255"), Ok((String::from("a"), 255)));
    // Only the piece between the first two separators counts.
    assert_eq!(parse_description("a:2:9"), Ok((String::from("a"), 2)));
}

#[test]
fn parse_description_rejects_malformed_text() {
    assert_eq!(
        parse_description("no-separator"),
        Err(ErrorKind::InvalidDescriptorString(String::from(
            "no-separator"
        )))
    );
    let bad = Err(ErrorKind::InvalidDescriptorString(String::from(
        "failed to parse channel",
    )));
    assert_eq!(parse_description("a:"), bad);
    assert_eq!(parse_description("a:x"), bad);
    assert_eq!(parse_description("a:256"), bad);
    assert_eq!(parse_description("a:-1"), bad);
}

#[test]
fn path_helpers_split_and_join() {
    assert_eq!(file_name("a/b/c.png"), "c.png");
    assert_eq!(file_name("c.png"), "c.png");
    assert_eq!(parent_of("a/b/c.png"), "a/b");
    assert_eq!(parent_of("c.png"), "");
    assert_eq!(strip_prefix("root/sub/f.png", "root"), "sub/f.png");
    assert_eq!(strip_prefix("root/sub/f.png", "other"), "root/sub/f.png");
    assert_eq!(path_join("a", "b.png"), "a/b.png");
    assert_eq!(path_join("a/", "b.png"), "a/b.png");
    assert_eq!(path_join("", "b.png"), "b.png");
    assert_eq!(path_join("a", ""), "a");
    assert!(str_eq("same", "same"));
    assert!(!str_eq("same", "sameish"));
}

#[test]
fn textures_resolver_groups_fixed_roles() {
    let resolver = DefaultTexturesResolver::new();
    let files = vec![
        String::from("hero_roughness.png"),
        String::from("hero_metalness.png"),
        String::from("enemy_metal.png"),
    ];
    let groups = resolver.resolve_textures(&files).unwrap();
    assert_eq!(groups.len(), 2);
    assert_eq!(groups[0].0, "hero");
    assert_eq!(
        groups[0].1.roughness,
        Some(String::from("hero_roughness.png"))
    );
    assert_eq!(
        groups[0].1.metalness,
        Some(String::from("hero_metalness.png"))
    );
    assert_eq!(groups[0].1.albedo, None);
    assert_eq!(groups[1].0, "enemy");
    assert_eq!(groups[1].1.metalness, Some(String::from("enemy_metal.png")));
    assert_eq!(groups[1].1.roughness, None);
}

#[test]
fn unity_swizzler_emits_one_command_per_complete_group() {
    let swizzler = UnitySwizzler {};
    let mut out: Vec<Vec<Option<(String, u8)>>> = Vec::new();

    let mut complete = Textures::new();
    complete.metalness = Some(String::from("hero_metal.png"));
    complete.roughness = Some(String::from("hero_rough.png"));
    swizzler.swizzle(&mut out, &complete);
    assert_eq!(
        out,
        vec![vec![
            Some((String::from("hero_metal.png"), 0)),
            None,
            None,
            Some((String::from("hero_rough.png"), 0)),
        ]]
    );

    let incomplete = Textures::new();
    swizzler.swizzle(&mut out, &incomplete);
    assert_eq!(out.len(), 1);
}
