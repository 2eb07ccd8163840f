use mportal::utils::{
    converted_file_name, get_output, is_media_extension, is_media_file, is_work_file_name,
    plan_media_file, string_to_str_slice, MediaPlan,
};
use mportal::config::{Config, Portal};

fn owned(s: Option<&str>) -> Option<String> {
    s.map(|x| x.to_string())
}

#[test]
fn media_file_with_uppercase_extension() {
    assert_eq!(is_media_file("/videos/clip.MP4"), (true, owned(Some("mp4"))));
}

#[test]
fn media_file_audio_and_image() {
    assert_eq!(is_media_file("/music/song.flac"), (true, owned(Some("flac"))));
    assert_eq!(is_media_file("/pics/photo.JpEg"), (true, owned(Some("jpeg"))));
    assert_eq!(is_media_file("/pics/anim.gif"), (true, owned(Some("gif"))));
}

#[test]
fn non_media_extension_is_reported() {
    assert_eq!(is_media_file("/docs/notes.TXT"), (false, owned(Some("txt"))));
}

#[test]
fn file_without_extension_is_not_media() {
    assert_eq!(is_media_file("/videos/README"), (false, None));
    assert_eq!(is_media_file("/home/u/.bashrc"), (false, None));
    assert_eq!(is_media_file(""), (false, None));
    assert_eq!(is_media_file("/videos/.."), (false, None));
}

#[test]
fn own_outputs_and_work_files_are_not_media() {
    assert_eq!(is_media_file("/out/clip.conv.mp4"), (false, None));
    assert_eq!(is_media_file("/out/temp/clip.converting.mkv"), (false, None));
    assert!(is_work_file_name("a.conv.b"));
    assert!(is_work_file_name("x.converting.y"));
    assert!(!is_work_file_name("conv.mp4"));
    assert!(!is_work_file_name("a.conversion.mp4"));
}

#[test]
fn extension_list_is_lowercase_and_exact() {
    assert!(is_media_extension("mp4"));
    assert!(is_media_extension("exr"));
    assert!(is_media_extension("3g2"));
    assert!(!is_media_extension("MP4"));
    assert!(!is_media_extension("mp"));
    assert!(!is_media_extension(""));
}

#[test]
fn converted_name_keeps_stem() {
    assert_eq!(converted_file_name("clip.mov", "mp4"), "clip.conv.mp4");
    assert_eq!(converted_file_name("archive.tar.gz", "mkv"), "archive.tar.conv.mkv");
    assert_eq!(converted_file_name(".hidden", "mp4"), ".hidden.conv.mp4");
    assert_eq!(converted_file_name("noext", "webm"), "noext.conv.webm");
}

#[test]
fn output_path_in_output_folder() {
    assert_eq!(get_output("/out", "/in/clip.mov", "mp4"), owned(Some("/out/clip.conv.mp4")));
    assert_eq!(get_output("/out/", "/in/clip.mov", "mp4"), owned(Some("/out/clip.conv.mp4")));
    assert_eq!(get_output("", "clip.mov", "mp4"), owned(Some("clip.conv.mp4")));
}

#[test]
fn output_path_needs_file_name() {
    assert_eq!(get_output("/out", "/", "mp4"), None);
    assert_eq!(get_output("/out", "/in/..", "mp4"), None);
}

#[test]
fn converted_output_is_never_media() {
    let out = get_output("/watched", "/watched/movie.MKV", "mkv").unwrap();
    assert_eq!(is_media_file(&out), (false, None));
}

#[test]
fn option_strings_split_on_whitespace() {
    assert_eq!(
        string_to_str_slice("  -c:v  libx264\t-crf 23\n"),
        vec!["-c:v", "libx264", "-crf", "23"]
    );
    assert_eq!(string_to_str_slice(""), Vec::<&str>::new());
    assert_eq!(string_to_str_slice(" \t \n"), Vec::<&str>::new());
    assert_eq!(string_to_str_slice("single"), vec!["single"]);
    assert_eq!(string_to_str_slice("a\u{A0}b"), vec!["a", "b"]);
}

#[test]
fn split_distributes_over_a_space() {
    let a = "-y  -hide_banner";
    let b = "-preset fast ";
    let joined = format!("{} {}", a, b);
    let mut expected = string_to_str_slice(a);
    expected.extend(string_to_str_slice(b));
    assert_eq!(string_to_str_slice(&joined), expected);
}

fn portal(input: &str, output: &str, format: &str, iopts: &str, oopts: &str) -> Portal {
    Portal {
        portal_name: String::new(),
        input_folder: input.to_string(),
        output_folder: output.to_string(),
        output_format: format.to_string(),
        input_options: iopts.to_string(),
        output_options: oopts.to_string(),
    }
}

#[test]
fn plan_converts_media_in_watched_folder() {
    let config = Config {
        portal: vec![
            portal("/srv/a", "/srv/a-out", "webm", "", "-b:v 1M"),
            portal("/srv/b", "/srv/b-out", "mp4", "-hwaccel auto", "-crf 20"),
        ],
    };
    match plan_media_file(&config, "/srv/b/sub/film.MOV", &vec![None, None]) {
        MediaPlan::Convert(job) => {
            assert_eq!(job.output, "/srv/b-out/film.conv.mp4");
            assert_eq!(job.input_options, vec!["-hwaccel".to_string(), "auto".to_string()]);
            assert_eq!(job.output_options, vec!["-crf".to_string(), "20".to_string()]);
        }
        MediaPlan::Ignore => panic!("expected a conversion"),
    }
}

#[test]
fn plan_uses_first_matching_portal_and_canonical_folder() {
    let config = Config {
        portal: vec![
            portal("relative/in", "/o1", "mp4", "", ""),
            portal("/srv", "/o2", "mkv", "", ""),
        ],
    };
    let canon = vec![Some("/srv/media".to_string()), None];
    match plan_media_file(&config, "/srv/media/x.avi", &canon) {
        MediaPlan::Convert(job) => assert_eq!(job.output, "/o1/x.conv.mp4"),
        MediaPlan::Ignore => panic!("expected a conversion"),
    }
    match plan_media_file(&config, "/srv/other/x.avi", &canon) {
        MediaPlan::Convert(job) => assert_eq!(job.output, "/o2/x.conv.mkv"),
        MediaPlan::Ignore => panic!("expected a conversion"),
    }
}

#[test]
fn plan_ignores_unwatched_or_non_media() {
    let config = Config { portal: vec![portal("/srv/in", "/srv/out", "mp4", "", "")] };
    assert!(matches!(plan_media_file(&config, "/elsewhere/x.mp4", &vec![None]), MediaPlan::Ignore));
    assert!(matches!(plan_media_file(&config, "/srv/in/x.txt", &vec![None]), MediaPlan::Ignore));
    assert!(matches!(plan_media_file(&config, "/srv/in/x.conv.mp4", &vec![None]), MediaPlan::Ignore));
    // whole components only
    assert!(matches!(plan_media_file(&config, "/srv/input/x.mp4", &vec![None]), MediaPlan::Ignore));
    let empty = Config { portal: vec![] };
    assert!(matches!(plan_media_file(&empty, "/srv/in/x.mp4", &vec![]), MediaPlan::Ignore));
}

#[test]
fn recognised_media_always_has_an_output() {
    for p in ["/a/b.mp4", "c.WAV", "/x/.y.png", "/deep/er/z.tar.webm"] {
        assert!(is_media_file(p).0);
        assert!(get_output("/o", p, "mkv").is_some());
    }
}

#[test]
fn extension_case_is_ignored() {
    for (a, b) in [("/v/x.MKV", "/v/x.mkv"), ("/v/x.conv.MP4", "/v/x.conv.mp4"), ("/v/y.TxT", "/v/y.txt")] {
        assert_eq!(is_media_file(a), is_media_file(b));
    }
}
