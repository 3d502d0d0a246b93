use swizzler::errors::ErrorKind;
use swizzler::raster::Image;
use swizzler::session::reader::Asset;
use swizzler::session::writer::Target;
use swizzler::session::{
    plan_slices, resolve_assets_dir, AssetReader, GenericAsset, GenericAssetReader, GenericTarget,
    RegexMatcher, Session,
};

fn reader_with_albedo_ao() -> GenericAssetReader {
    GenericAssetReader::new()
        .unwrap()
        .add_matcher(RegexMatcher::new(String::from("albedo"), "(?i)albedo").unwrap())
        .add_matcher(RegexMatcher::new(String::from("ao"), "(?i)ao").unwrap())
}

#[test]
fn resolver_groups_by_base_name() {
    // Two roles over three files: asset "a" gains both, asset "b" only one.
    let reader = GenericAssetReader::new()
        .unwrap()
        .add_matcher(RegexMatcher::new(String::from("albedo"), "(?i)albedo").unwrap())
        .add_matcher(RegexMatcher::new(String::from("roughness"), "(?i)rough").unwrap());
    let files = vec![
        String::from("a_albedo.png"),
        String::from("a_roughness.png"),
        String::from("b_albedo.png"),
    ];
    let assets = reader.resolve(&files);
    assert_eq!(assets.len(), 2);
    assert_eq!(assets[0].get_base(), "a");
    assert_eq!(assets[1].get_base(), "b");
    assert_eq!(
        assets[0].get_texture_path(&String::from("albedo")),
        Some(&String::from("a_albedo.png"))
    );
    assert_eq!(
        assets[0].get_texture_path(&String::from("roughness")),
        Some(&String::from("a_roughness.png"))
    );
    assert_eq!(
        assets[1].get_texture_path(&String::from("albedo")),
        Some(&String::from("b_albedo.png"))
    );
    assert_eq!(assets[1].get_texture_path(&String::from("roughness")), None);
}

#[test]
fn resolver_ignores_files_without_base_capture() {
    let reader = reader_with_albedo_ao();
    // No underscore, so the base pattern captures nothing.
    let files = vec![String::from("readme.txt")];
    let assets = reader.resolve(&files);
    assert_eq!(assets.len(), 0);
}

#[test]
fn resolver_base_comes_from_the_last_underscore() {
    let reader = reader_with_albedo_ao();
    let files = vec![
        String::from("a_albedo_old.png"),
        String::from("a_albedo.png"),
    ];
    let assets = reader.resolve(&files);
    // "a_albedo_old.png" has base "a_albedo"; "a_albedo.png" has base "a".
    assert_eq!(assets.len(), 2);
    assert_eq!(assets[0].get_base(), "a_albedo");
    assert_eq!(assets[1].get_base(), "a");
}

#[test]
fn resolver_last_writer_wins() {
    // Two files of one base match the same role: the later file's path stays.
    let reader = reader_with_albedo_ao();
    let files = vec![String::from("a_ao.png"), String::from("a_ao2.png")];
    let assets = reader.resolve(&files);
    assert_eq!(assets.len(), 1);
    assert_eq!(
        assets[0].get_texture_path(&String::from("ao")),
        Some(&String::from("a_ao2.png"))
    );

    // Two matchers accept one file: the later matcher's role also records it,
    // and both roles end up populated.
    let reader = GenericAssetReader::new()
        .unwrap()
        .add_matcher(RegexMatcher::new(String::from("color"), "(?i)albedo").unwrap())
        .add_matcher(RegexMatcher::new(String::from("any"), "png").unwrap());
    let files = vec![String::from("a_albedo.png")];
    let assets = reader.resolve(&files);
    assert_eq!(assets.len(), 1);
    assert_eq!(
        assets[0].get_texture_path(&String::from("color")),
        Some(&String::from("a_albedo.png"))
    );
    assert_eq!(
        assets[0].get_texture_path(&String::from("any")),
        Some(&String::from("a_albedo.png"))
    );
}

#[test]
fn resolve_assets_dir_keeps_directories_apart() {
    let reader = reader_with_albedo_ao();
    // Same base name in two directories: two distinct assets.
    let listings = vec![
        vec![
            String::from("./textures/a_albedo.png"),
            String::from("./textures/a_ao.png"),
            String::from("./textures/notes.txt_ignored"),
        ],
        vec![String::from("./textures/rec/a_albedo.png")],
    ];
    let bundle = resolve_assets_dir("./textures", &listings, &reader);
    assert_eq!(bundle.get_root(), "./textures");
    let assets = bundle.get_assets();
    assert_eq!(assets.len(), 2);
    assert_eq!(assets[0].get_base(), "a");
    assert_eq!(assets[1].get_base(), "a");
    assert_eq!(
        assets[0].get_folder(),
        Some(String::from("./textures"))
    );
    assert_eq!(
        assets[1].get_folder(),
        Some(String::from("./textures/rec"))
    );
}

#[test]
fn resolve_assets_dir_discards_empty_assets() {
    let reader = reader_with_albedo_ao();
    // The base pattern captures "b", but no matcher accepts the file.
    let listings = vec![vec![String::from("b_normal.png")]];
    let bundle = resolve_assets_dir(".", &listings, &reader);
    assert_eq!(bundle.get_assets().len(), 0);
}

fn albedo_rgb_2x2() -> Image {
    Image::new(
        2,
        2,
        3,
        vec![0, 0, 255, 0, 255, 0, 255, 0, 0, 127, 127, 127],
    )
    .unwrap()
}

fn ao_gray_2x2() -> Image {
    Image::new(2, 2, 1, vec![0, 127, 255, 0]).unwrap()
}

fn albedo_ao_target() -> GenericTarget {
    GenericTarget::new(vec![
        Some((String::from("albedo"), 0)),
        Some((String::from("albedo"), 1)),
        Some((String::from("albedo"), 2)),
        Some((String::from("ao"), 0)),
    ])
    .set_name(String::from("_albedo-ao.png"))
}

#[test]
fn generate_packs_albedo_and_ao() {
    // A 2x2 RGB albedo and a 2x2 single-channel ao, packed into RGBA: the
    // fourth channel of every pixel must equal the ao source's only channel.
    let albedo = albedo_rgb_2x2();
    let ao = ao_gray_2x2();
    let target = albedo_ao_target();
    let sources = vec![
        Some(Image::new(2, 2, 3, albedo.data().clone()).unwrap()),
        Some(Image::new(2, 2, 3, albedo.data().clone()).unwrap()),
        Some(Image::new(2, 2, 3, albedo.data().clone()).unwrap()),
        Some(Image::new(2, 2, 1, ao.data().clone()).unwrap()),
    ];
    let img = target.generate(&sources).unwrap();
    assert_eq!(img.dimensions(), (2, 2));
    assert_eq!(img.channels(), 4);
    assert_eq!(
        img.data(),
        &vec![
            0, 0, 255, 0, //
            0, 255, 0, 127, //
            255, 0, 0, 255, //
            127, 127, 127, 0,
        ]
    );
    for y in 0..2 {
        for x in 0..2 {
            assert_eq!(img.sample(x, y, 3), ao.sample(x, y, 0));
        }
    }
}

#[test]
fn generate_fills_missing_slots_with_defaults() {
    let ao = ao_gray_2x2();
    // Only the fourth slot is declared and present.
    let target = GenericTarget::new(vec![
        None,
        None,
        None,
        Some((String::from("ao"), 0)),
    ]);
    let sources = vec![None, None, None, Some(Image::new(2, 2, 1, ao.data().clone()).unwrap())];
    let img = target.generate(&sources).unwrap();
    assert_eq!(img.data(), &vec![0, 0, 0, 0, 0, 0, 0, 127, 0, 0, 0, 255, 0, 0, 0, 0]);
}

#[test]
fn generate_reports_each_error_kind() {
    // No declared slot at all.
    let empty = GenericTarget::new(vec![]);
    assert!(matches!(empty.generate(&vec![]), Err(ErrorKind::NoInputs)));

    // A declared slot whose role is absent: no present source.
    let lone = GenericTarget::new(vec![Some((String::from("ao"), 0))]);
    assert!(matches!(
        lone.generate(&vec![None]),
        Err(ErrorKind::EmptyDescriptor)
    ));

    // Present sources of different sizes.
    let two = GenericTarget::new(vec![
        Some((String::from("a"), 0)),
        Some((String::from("b"), 0)),
    ]);
    let sources = vec![
        Some(Image::new(2, 2, 1, vec![0, 1, 2, 3]).unwrap()),
        Some(Image::new(1, 1, 1, vec![9]).unwrap()),
    ];
    assert!(matches!(two.generate(&sources), Err(ErrorKind::InvalidSize)));

    // A channel the source does not have.
    let deep = GenericTarget::new(vec![Some((String::from("a"), 3))]);
    let sources = vec![Some(Image::new(1, 1, 1, vec![9]).unwrap())];
    assert!(matches!(deep.generate(&sources), Err(ErrorKind::Invalid)));
}

#[test]
fn session_builds_output_paths_mirroring_the_tree() {
    let session = Session::new()
        .set_output_folder(String::from("./_tests_output_"));
    let target = albedo_ao_target();
    let mut asset = GenericAsset::new(String::from("a"));
    asset.insert_texture(
        String::from("albedo"),
        String::from("./tests/textures/rec/a_albedo.png"),
    );
    let path = session.output_path("./tests/textures", &asset, &target);
    assert_eq!(path, "./_tests_output_/rec/a_albedo-ao.png");

    let mut top = GenericAsset::new(String::from("b"));
    top.insert_texture(
        String::from("albedo"),
        String::from("./tests/textures/b_albedo.png"),
    );
    let path = session.output_path("./tests/textures", &top, &target);
    assert_eq!(path, "./_tests_output_/b_albedo-ao.png");
}

#[test]
fn absent_role_fails_one_pair_and_spares_the_rest() {
    // Asset "a" has the ao role, asset "b" does not: applying a target that
    // reads ao must yield exactly one error, for ("b", target), while the
    // ("a", target) pair still succeeds.
    let session = Session::new()
        .set_output_folder(String::from("./out"))
        .add_target(
            GenericTarget::new(vec![Some((String::from("ao"), 0))])
                .set_name(String::from("_ao.png")),
        );
    let mut a = GenericAsset::new(String::from("a"));
    a.insert_texture(String::from("ao"), String::from("./t/a_ao.png"));
    let mut b = GenericAsset::new(String::from("b"));
    b.insert_texture(String::from("albedo"), String::from("./t/b_albedo.png"));

    let target = &session.targets()[0];
    let mut errors: Vec<swizzler::session::RunError> = Vec::new();
    let mut written: Vec<String> = Vec::new();
    for asset in [&a, &b] {
        let paths = target.input_paths(asset);
        let sources: Vec<Option<Image>> = paths
            .iter()
            .map(|p| p.as_ref().map(|_| Image::new(2, 2, 1, vec![1, 2, 3, 4]).unwrap()))
            .collect();
        match session.process_pair("./t", asset, 0, &sources) {
            Ok((_img, path)) => written.push(path),
            Err(e) => errors.push(e),
        }
    }
    assert_eq!(written, vec![String::from("./out/a_ao.png")]);
    assert_eq!(errors.len(), 1);
    assert_eq!(errors[0].base, "b");
    assert_eq!(errors[0].target_index, 0);
    assert_eq!(errors[0].kind, ErrorKind::EmptyDescriptor);
}

#[test]
fn thread_count_never_changes_the_work() {
    // Plans for one worker and for several cover the same asset indices.
    for n in [0usize, 1, 2, 5, 10, 17] {
        let mut covered_once: Vec<usize> = Vec::new();
        for (start, len) in plan_slices(n, 1) {
            for a in start..start + len {
                covered_once.push(a);
            }
        }
        for t in [2usize, 3, 8] {
            let mut covered: Vec<usize> = Vec::new();
            for (start, len) in plan_slices(n, t) {
                for a in start..start + len {
                    covered.push(a);
                }
            }
            assert_eq!(covered, covered_once);
            assert_eq!(covered, (0..n).collect::<Vec<usize>>());
        }
    }
    // The plan respects the bound and halves small workloads.
    assert_eq!(plan_slices(10, 3).len(), 3);
    assert_eq!(plan_slices(10, 100).len(), 5);
    assert_eq!(plan_slices(1, 8).len(), 1);
    assert_eq!(plan_slices(0, 8).len(), 1);
}

#[test]
fn running_twice_reproduces_the_same_outputs() {
    // The whole pure pipeline — resolution, generation, output paths — gives
    // byte-identical results when run twice over the same inputs.
    let listings = vec![vec![
        String::from("./t/a_albedo.png"),
        String::from("./t/a_ao.png"),
    ]];
    let run = || {
        let reader = reader_with_albedo_ao();
        let bundle = resolve_assets_dir("./t", &listings, &reader);
        let session = Session::new()
            .set_output_folder(String::from("./out"))
            .add_target(albedo_ao_target());
        let target = &session.targets()[0];
        let mut results: Vec<(String, Vec<u8>)> = Vec::new();
        for asset in bundle.get_assets() {
            let paths = target.input_paths(asset);
            let sources: Vec<Option<Image>> = paths
                .iter()
                .map(|p| {
                    p.as_ref().map(|name| {
                        if name.contains("ao") {
                            Image::new(2, 2, 1, vec![9, 8, 7, 6]).unwrap()
                        } else {
                            Image::new(2, 2, 3, albedo_rgb_2x2().data().clone()).unwrap()
                        }
                    })
                })
                .collect();
            match session.process_pair("./t", asset, 0, &sources) {
                Ok((img, path)) => results.push((path, img.data().clone())),
                Err(_) => panic!("generation should succeed"),
            }
        }
        results
    };
    let first = run();
    let second = run();
    assert_eq!(first, second);
    assert_eq!(first.len(), 1);
    assert_eq!(first[0].0, "./out/a_albedo-ao.png");
}

#[test]
fn session_builders_accumulate_targets() {
    let mut extra = vec![
        GenericTarget::new(vec![Some((String::from("x"), 0))]),
        GenericTarget::new(vec![None, Some((String::from("y"), 1))]),
    ];
    let session = Session::new()
        .add_target(albedo_ao_target())
        .add_targets(&mut extra)
        .set_max_threads_nb(Some(2));
    assert_eq!(extra.len(), 0);
    assert_eq!(session.targets().len(), 3);
    assert_eq!(session.max_threads(), 2);
    assert_eq!(session.output_folder(), "./__swizzler_build");
    // The default worker bound comes from the host and is never zero.
    assert!(Session::new().max_threads() >= 1);
}

#[test]
fn invalid_patterns_are_rejected() {
    assert!(RegexMatcher::new(String::from("albedo"), "(unclosed").is_none());
    assert!(GenericAssetReader::new().unwrap().set_base("(unclosed").is_none());
    assert!(GenericAssetReader::new().unwrap().set_base("(.*)_.*").is_some());
}
