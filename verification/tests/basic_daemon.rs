use mportal::basic::config::{Config, Path};
use mportal::basic::utils::{
    destination, encoder_arguments, get_output, is_media_file, plan_media_file,
    string_to_str_slice, work_file, MediaPlan,
};

#[test]
fn basic_default_config() {
    let c = Config::default();
    assert_eq!(c.path.len(), 1);
    assert_eq!(c.path[0].input_folder, "path to the input/folder");
    assert_eq!(c.path[0].output_folder, "path to the output/folder");
    assert_eq!(c.path[0].output_format, "mp4");
    assert_eq!(c.path[0].arguments, " ");
}

#[test]
fn basic_media_recognition() {
    assert_eq!(is_media_file("/in/Clip.AVI"), (true, Some("avi".to_string())));
    assert_eq!(is_media_file("/in/clip.conv.mp4"), (true, Some("mp4".to_string())));
    assert_eq!(is_media_file("/in/notes.md"), (false, Some("md".to_string())));
    assert_eq!(is_media_file("/in/Makefile"), (false, None));
}

#[test]
fn basic_output_is_plain_concatenation() {
    assert_eq!(get_output("/out/", "/in/clip.mov", "mp4"), Some("/out/clip.converted.mp4".to_string()));
    assert_eq!(get_output("/out", "/in/clip.mov", "mp4"), Some("/outclip.converted.mp4".to_string()));
    assert_eq!(get_output("/out/", "/", "mp4"), None);
}

#[test]
fn basic_split() {
    assert_eq!(string_to_str_slice(" "), Vec::<&str>::new());
    assert_eq!(string_to_str_slice("-vf scale=1280:-1"), vec!["-vf", "scale=1280:-1"]);
}

#[test]
fn basic_plan() {
    let config = Config {
        path: vec![Path {
            input_folder: "/in".to_string(),
            output_folder: "/out/".to_string(),
            output_format: "mkv".to_string(),
            arguments: " -c copy ".to_string(),
        }],
    };
    match plan_media_file(&config, "/in/a.MP4", &vec![None]) {
        MediaPlan::Convert(job) => {
            assert_eq!(job.output, "/out/a.converted.mkv");
            assert_eq!(job.arguments, vec!["-c".to_string(), "copy".to_string()]);
        }
        MediaPlan::Ignore => panic!("expected a conversion"),
    }
    assert!(matches!(plan_media_file(&config, "/in/a.pdf", &vec![None]), MediaPlan::Ignore));
}

#[test]
fn basic_encoder_arguments() {
    let args = encoder_arguments("/in/a.mp4", &vec!["-c".to_string(), "copy".to_string()], "/tmp/a.mkv");
    assert_eq!(args, vec!["-i", "/in/a.mp4", "-c", "copy", "/tmp/a.mkv", "-loglevel", "warning", "-y"]);
}

#[test]
fn basic_work_file_and_destination() {
    assert_eq!(work_file("/tmp", "/out/a.converted.mkv"), "/tmp/a.converted.mkv");
    assert_eq!(destination("/out/a.converted.mkv", true, "/in/a.mp4"), "/out/a.converted.mkv");
    assert_eq!(destination("/missing/a.converted.mkv", false, "/in/a.mp4"), "/in/a.converted.mkv");
    assert_eq!(destination("a.converted.mkv", false, "a.mp4"), "a.converted.mkv");
}
