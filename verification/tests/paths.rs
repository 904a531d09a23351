use abtool::config::{Apk, BuildApk, Config, ConfigInfo, Jar, Sign};
use abtool::file_path::{
    get_aab_path, get_apk_build_path, get_apk_dist_path, get_apk_sign_path, get_apk_un_sign_path,
    get_apk_zipalign_path, get_apks_path, get_app_path, get_assets_path, get_base_apk_path,
    get_base_dir_path, get_base_root_path, get_base_zip_path, get_dex_path, get_kotlin_path,
    get_lib_path, get_manifest_path, get_meta_path, get_new_assets_path, get_new_kotlin_path,
    get_new_lib_path, get_new_meta_path, get_new_unknown_path, get_res_path,
    get_resources_zip_path, get_root_path, get_unknown_path, parent_of, path_join, stamped_name,
    steps_of, PathName, PathResolver,
};
use std::path::Path;

fn paths_config(outdir: &str, app_path: &str) -> Config {
    Config {
        sign: Sign {
            keystore: "/keys/release.jks".to_string(),
            keystore_pass: "storepw".to_string(),
            keystore_key_alias: "upload".to_string(),
            keystore_key_pass: "keypw".to_string(),
        },
        apk: Apk {
            apk_path: "/in/app.apk".to_string(),
            apk_outdir: outdir.to_string(),
            min_sdk_version: "21".to_string(),
            target_sdk_version: "34".to_string(),
            version_code: "7".to_string(),
            version_name: "1.2.3".to_string(),
            app_name: "demo".to_string(),
        },
        jar: Jar {
            apktool_path: "/tools/apktool.jar".to_string(),
            bundletool_path: "/tools/bundletool.jar".to_string(),
            android_jar_path: "/sdk/android.jar".to_string(),
        },
        config: ConfigInfo {
            install: false,
            launch: false,
            main_activity: "com.demo/.Main".to_string(),
            bundletool_config_path: String::new(),
        },
        build_apk: BuildApk { app_path: app_path.to_string() },
    }
}

const ALL_NAMES: [PathName; 27] = [
    PathName::Res,
    PathName::Apks,
    PathName::Aab,
    PathName::BaseZip,
    PathName::BaseDir,
    PathName::Root,
    PathName::Manifest,
    PathName::Assets,
    PathName::NewAssets,
    PathName::Lib,
    PathName::NewLib,
    PathName::BaseRoot,
    PathName::Unknown,
    PathName::NewUnknown,
    PathName::Kotlin,
    PathName::NewKotlin,
    PathName::Meta,
    PathName::NewMeta,
    PathName::Dex,
    PathName::BaseApk,
    PathName::ResourcesZip,
    PathName::App,
    PathName::ApkBuild,
    PathName::ApkDist,
    PathName::ApkUnSign,
    PathName::ApkZipalign,
    PathName::ApkSign,
];

#[test]
fn join_puts_one_separator_between_base_and_name() {
    assert_eq!(path_join("/work/out", "res"), "/work/out/res");
    assert_eq!(path_join("out", "res"), "out/res");
}

#[test]
fn join_adds_no_separator_after_one() {
    assert_eq!(path_join("/work/out/", "res"), "/work/out/res");
    assert_eq!(path_join("/", "res"), "/res");
}

#[test]
fn join_onto_empty_base_is_the_name() {
    assert_eq!(path_join("", "res"), "res");
}

#[test]
fn join_of_absolute_name_replaces_base() {
    assert_eq!(path_join("/work/out", "/etc/passwd"), "/etc/passwd");
}

#[test]
fn join_of_empty_name_ends_in_separator() {
    assert_eq!(path_join("/work/out", ""), "/work/out/");
    assert_eq!(path_join("", ""), "");
}

#[test]
fn join_agrees_with_std_paths() {
    let bases = ["", "/", "a", "a/", "/a/b", "/a/b/", "rel/dir", "ünï/cödé"];
    let names = ["", "x", "x/y", "/abs", "/", "a b", "..", "x/", "å"];
    for base in bases {
        for name in names {
            let expected = Path::new(base).join(name).to_string_lossy().to_string();
            assert_eq!(path_join(base, name), expected, "base {:?} name {:?}", base, name);
        }
    }
}

#[test]
fn stamped_name_concatenates_its_four_parts() {
    assert_eq!(stamped_name("T", "_", "demo", "-sign.apk"), "T_demo-sign.apk");
    assert_eq!(stamped_name("2024-01-02_03-04-05", "", "demo", ".aab"), "2024-01-02_03-04-05demo.aab");
    assert_eq!(stamped_name("", "", "", ""), "");
}

#[test]
fn locations_in_the_output_directory() {
    let config = paths_config("/work/out", "/src/project");
    let mut r = PathResolver::new();
    assert_eq!(get_res_path(&mut r, &config), Ok("/work/out/res".to_string()));
    assert_eq!(get_apks_path(&mut r, &config), Ok("/work/out/app.apks".to_string()));
    assert_eq!(get_base_zip_path(&mut r, &config), Ok("/work/out/base.zip".to_string()));
    assert_eq!(get_base_dir_path(&mut r, &config), Ok("/work/out/base".to_string()));
    assert_eq!(get_root_path(&mut r, &config), Ok("/work/out".to_string()));
    assert_eq!(get_assets_path(&mut r, &config), Ok("/work/out/assets".to_string()));
    assert_eq!(get_lib_path(&mut r, &config), Ok("/work/out/lib".to_string()));
    assert_eq!(get_unknown_path(&mut r, &config), Ok("/work/out/unknown".to_string()));
    assert_eq!(get_kotlin_path(&mut r, &config), Ok("/work/out/kotlin".to_string()));
    assert_eq!(get_meta_path(&mut r, &config), Ok("/work/out/original/META-INF".to_string()));
    assert_eq!(get_base_apk_path(&mut r, &config), Ok("/work/out/base.apk".to_string()));
    assert_eq!(get_resources_zip_path(&mut r, &config), Ok("/work/out/resources.zip".to_string()));
}

#[test]
fn locations_in_the_module_directory() {
    let config = paths_config("/work/out", "/src/project");
    let mut r = PathResolver::new();
    assert_eq!(get_manifest_path(&mut r, &config), Ok("/work/out/base/manifest".to_string()));
    assert_eq!(get_new_assets_path(&mut r, &config), Ok("/work/out/base/assets".to_string()));
    assert_eq!(get_new_lib_path(&mut r, &config), Ok("/work/out/base/lib".to_string()));
    assert_eq!(get_base_root_path(&mut r, &config), Ok("/work/out/base/root".to_string()));
    assert_eq!(get_dex_path(&mut r, &config), Ok("/work/out/base/dex".to_string()));
    assert_eq!(
        get_new_unknown_path(&mut r, &config),
        Ok("/work/out/base/root/root/unknown".to_string())
    );
    assert_eq!(get_new_kotlin_path(&mut r, &config), Ok("/work/out/base/root/kotlin".to_string()));
    assert_eq!(
        get_new_meta_path(&mut r, &config),
        Ok("/work/out/base/root/root/META-INF".to_string())
    );
}

#[test]
fn locations_in_the_source_project() {
    let config = paths_config("/work/out", "/src/project");
    let mut r = PathResolver::new();
    assert_eq!(get_app_path(&mut r, &config), Ok("/src/project".to_string()));
    assert_eq!(get_apk_build_path(&mut r, &config), Ok("/src/project/build".to_string()));
    assert_eq!(get_apk_dist_path(&mut r, &config), Ok("/src/project/dist".to_string()));
}

#[test]
fn stamped_locations() {
    let config = paths_config("/work/out", "/src/project");
    let time = "2024-01-02_03-04-05";
    let mut r = PathResolver::new();
    assert_eq!(
        get_aab_path(&mut r, &config, time),
        Ok("/work/out/2024-01-02_03-04-05demo.aab".to_string())
    );
    assert_eq!(
        get_apk_un_sign_path(&mut r, &config, time),
        Ok("/src/project/dist/2024-01-02_03-04-05_demo-unsign.apk".to_string())
    );
    assert_eq!(
        get_apk_zipalign_path(&mut r, &config, time),
        Ok("/src/project/dist/2024-01-02_03-04-05_demo-zip.apk".to_string())
    );
    assert_eq!(
        get_apk_sign_path(&mut r, &config, time),
        Ok("/src/project/dist/2024-01-02_03-04-05_demo-sign.apk".to_string())
    );
}

#[test]
fn output_directory_with_trailing_separator() {
    let config = paths_config("out/", "project/");
    let mut r = PathResolver::new();
    assert_eq!(get_root_path(&mut r, &config), Ok("out/".to_string()));
    assert_eq!(get_manifest_path(&mut r, &config), Ok("out/base/manifest".to_string()));
    assert_eq!(get_apk_sign_path(&mut r, &config, "T"), Ok("project/dist/T_demo-sign.apk".to_string()));
}

#[test]
fn empty_output_directory_gives_relative_locations() {
    let config = paths_config("", "");
    let mut r = PathResolver::new();
    assert_eq!(get_root_path(&mut r, &config), Ok(String::new()));
    assert_eq!(get_res_path(&mut r, &config), Ok("res".to_string()));
    assert_eq!(get_new_meta_path(&mut r, &config), Ok("base/root/root/META-INF".to_string()));
    assert_eq!(get_apk_build_path(&mut r, &config), Ok("build".to_string()));
}

#[test]
fn stamped_name_that_begins_with_a_separator_replaces_the_directory() {
    let config = paths_config("/work/out", "/src/project");
    let mut r = PathResolver::new();
    assert_eq!(get_aab_path(&mut r, &config, "/tmp/"), Ok("/tmp/demo.aab".to_string()));
}

#[test]
fn same_question_twice_gives_the_same_answer() {
    let config = paths_config("/work/out", "/src/project");
    let mut r = PathResolver::new();
    let first = get_new_meta_path(&mut r, &config);
    let second = get_new_meta_path(&mut r, &config);
    assert_eq!(first, second);
    let first = get_apk_sign_path(&mut r, &config, "T1");
    let second = get_apk_sign_path(&mut r, &config, "T1");
    assert_eq!(first, second);
}

#[test]
fn resolver_answers_from_memory_whatever_is_asked_later() {
    let first = paths_config("/one", "/p1");
    let second = paths_config("/two", "/p2");
    let mut r = PathResolver::new();
    assert_eq!(get_base_dir_path(&mut r, &first), Ok("/one/base".to_string()));
    assert_eq!(get_base_dir_path(&mut r, &second), Ok("/one/base".to_string()));
    // derived from the remembered module directory, not from the later configuration
    assert_eq!(get_manifest_path(&mut r, &second), Ok("/one/base/manifest".to_string()));
    // never asked before, and derived from nothing remembered
    assert_eq!(get_res_path(&mut r, &second), Ok("/two/res".to_string()));
    assert_eq!(get_aab_path(&mut r, &first, "T1"), Ok("/one/T1demo.aab".to_string()));
    assert_eq!(get_aab_path(&mut r, &second, "T2"), Ok("/one/T1demo.aab".to_string()));
}

#[test]
fn resolver_remembers_what_it_asked_on_the_way() {
    let config = paths_config("/work/out", "/src/project");
    let mut r = PathResolver::new();
    assert_eq!(r.lookup(PathName::BaseRoot), None);
    assert_eq!(r.lookup(PathName::BaseDir), None);
    let _ = get_new_kotlin_path(&mut r, &config);
    assert_eq!(r.lookup(PathName::NewKotlin), Some("/work/out/base/root/kotlin".to_string()));
    assert_eq!(r.lookup(PathName::BaseRoot), Some("/work/out/base/root".to_string()));
    assert_eq!(r.lookup(PathName::BaseDir), Some("/work/out/base".to_string()));
    assert_eq!(r.lookup(PathName::Root), None);
    assert_eq!(r.lookup(PathName::Res), None);
}

#[test]
fn store_replaces_what_was_remembered() {
    let mut r = PathResolver::new();
    r.store(PathName::ApkSign, "a");
    r.store(PathName::Res, "b");
    r.store(PathName::ApkSign, "c");
    assert_eq!(r.lookup(PathName::ApkSign), Some("c".to_string()));
    assert_eq!(r.lookup(PathName::Res), Some("b".to_string()));
    assert_eq!(r.lookup(PathName::Apks), None);
}

#[test]
fn stored_answer_is_handed_out_by_the_getter() {
    let config = paths_config("/work/out", "/src/project");
    let mut r = PathResolver::new();
    r.store(PathName::BaseDir, "/elsewhere");
    assert_eq!(get_base_dir_path(&mut r, &config), Ok("/elsewhere".to_string()));
    assert_eq!(get_dex_path(&mut r, &config), Ok("/elsewhere/dex".to_string()));
}

#[test]
fn no_location_depends_on_itself() {
    for name in ALL_NAMES {
        let mut seen = vec![name];
        let mut at = name;
        while let Some(parent) = parent_of(at) {
            assert!(!seen.contains(&parent), "{:?} reaches {:?} twice", name, parent);
            seen.push(parent);
            at = parent;
        }
        assert!(seen.len() <= 3);
    }
}

#[test]
fn dependencies_of_the_locations() {
    assert_eq!(parent_of(PathName::Res), None);
    assert_eq!(parent_of(PathName::Root), None);
    assert_eq!(parent_of(PathName::App), None);
    assert_eq!(parent_of(PathName::Manifest), Some(PathName::BaseDir));
    assert_eq!(parent_of(PathName::Assets), Some(PathName::Root));
    assert_eq!(parent_of(PathName::NewMeta), Some(PathName::BaseRoot));
    assert_eq!(parent_of(PathName::BaseRoot), Some(PathName::BaseDir));
    assert_eq!(parent_of(PathName::ApkDist), Some(PathName::App));
    assert_eq!(parent_of(PathName::ApkSign), Some(PathName::ApkDist));
}

#[test]
fn steps_lead_from_the_output_directory() {
    assert_eq!(steps_of(PathName::Root), Vec::<String>::new());
    assert_eq!(steps_of(PathName::BaseDir), vec!["base".to_string()]);
    assert_eq!(steps_of(PathName::Manifest), vec!["base".to_string(), "manifest".to_string()]);
    assert_eq!(steps_of(PathName::Meta), vec!["original".to_string(), "META-INF".to_string()]);
    assert_eq!(
        steps_of(PathName::NewMeta),
        vec!["base".to_string(), "root".to_string(), "root".to_string(), "META-INF".to_string()]
    );
    assert_eq!(
        steps_of(PathName::NewUnknown),
        vec!["base".to_string(), "root".to_string(), "root".to_string(), "unknown".to_string()]
    );
    assert_eq!(
        steps_of(PathName::NewKotlin),
        vec!["base".to_string(), "root".to_string(), "kotlin".to_string()]
    );
    assert_eq!(steps_of(PathName::Dex), vec!["base".to_string(), "dex".to_string()]);
}

#[test]
fn location_is_the_output_directory_with_its_steps_adjoined() {
    let config = paths_config("/work/out", "/src/project");
    let unstamped_in_output = [
        PathName::Res,
        PathName::Apks,
        PathName::BaseZip,
        PathName::BaseDir,
        PathName::Root,
        PathName::Manifest,
        PathName::Assets,
        PathName::NewAssets,
        PathName::Lib,
        PathName::NewLib,
        PathName::BaseRoot,
        PathName::Unknown,
        PathName::NewUnknown,
        PathName::Kotlin,
        PathName::NewKotlin,
        PathName::Meta,
        PathName::NewMeta,
        PathName::Dex,
        PathName::BaseApk,
        PathName::ResourcesZip,
    ];
    for name in unstamped_in_output {
        let mut joined = "/work/out".to_string();
        for step in steps_of(name) {
            joined = path_join(&joined, &step);
        }
        let mut r = PathResolver::new();
        let resolved = match name {
            PathName::Res => get_res_path(&mut r, &config),
            PathName::Apks => get_apks_path(&mut r, &config),
            PathName::BaseZip => get_base_zip_path(&mut r, &config),
            PathName::BaseDir => get_base_dir_path(&mut r, &config),
            PathName::Root => get_root_path(&mut r, &config),
            PathName::Manifest => get_manifest_path(&mut r, &config),
            PathName::Assets => get_assets_path(&mut r, &config),
            PathName::NewAssets => get_new_assets_path(&mut r, &config),
            PathName::Lib => get_lib_path(&mut r, &config),
            PathName::NewLib => get_new_lib_path(&mut r, &config),
            PathName::BaseRoot => get_base_root_path(&mut r, &config),
            PathName::Unknown => get_unknown_path(&mut r, &config),
            PathName::NewUnknown => get_new_unknown_path(&mut r, &config),
            PathName::Kotlin => get_kotlin_path(&mut r, &config),
            PathName::NewKotlin => get_new_kotlin_path(&mut r, &config),
            PathName::Meta => get_meta_path(&mut r, &config),
            PathName::NewMeta => get_new_meta_path(&mut r, &config),
            PathName::Dex => get_dex_path(&mut r, &config),
            PathName::BaseApk => get_base_apk_path(&mut r, &config),
            _ => get_resources_zip_path(&mut r, &config),
        };
        assert_eq!(resolved, Ok(joined), "{:?}", name);
    }
}
