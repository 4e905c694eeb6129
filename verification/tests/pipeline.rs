//! Tests of the queue, the status lifecycle, admission control and the
//! route-level rules.
use mediaforge::api::{get_content_type, get_file_extension, validate_file, FileIssue};
use mediaforge::auth::{validate_registration, Claims, CredentialIssue, RegisterRequest};
use mediaforge::config::{Config, ProcessingConfig, QuotaConfig, StorageConfig};
use mediaforge::queue::{EnqueuePath, JobMessage, JobStatus, Queue, QueueError};
use mediaforge::quota::{check_concurrent, check_quota, day_start, same_utc_day, utc_day_index, QuotaError};
use mediaforge::imagebuf::ImageBuf;
use mediaforge::processing::ImageProcessor;
use mediaforge::worker::{
    begin_job, complete_job, fail_job, output_filename, record_progress, run_transform, JobKind,
    JobParams,
};

fn job(id: &str) -> JobMessage {
    JobMessage {
        job_id: id.to_string(),
        user_id: "u1".to_string(),
        job_type: "convert".to_string(),
        media_location: "loc".to_string(),
    }
}

fn quotas() -> QuotaConfig {
    QuotaConfig {
        free_tier_image_daily: 10,
        free_tier_video_daily: 3,
        free_tier_concurrent: 1,
        pro_tier_video_daily: 50,
        pro_tier_concurrent: 5,
    }
}

fn config() -> Config {
    Config {
        database_url: String::new(),
        redis_url: String::new(),
        jwt_secret: String::new(),
        host: "127.0.0.1".to_string(),
        port: 8080,
        storage: StorageConfig {
            mode: "local".to_string(),
            local_path: "./data/uploads".to_string(),
            s3_endpoint: None,
            s3_bucket: None,
            s3_access_key: None,
            s3_secret_key: None,
        },
        quotas: quotas(),
        processing: ProcessingConfig {
            max_image_size_mb: 5,
            max_video_size_mb: 50,
            max_video_duration_seconds: 30,
            model_path: "./models/u2net.onnx".to_string(),
            temp_dir: "./data/temp".to_string(),
        },
    }
}

#[test]
fn test_queue_saturation() {
    // Submitting beyond the buffer's capacity with no durable mirror returns
    // a saturation error rather than blocking.
    let mut q = Queue::new(2, false);
    assert!(matches!(q.enqueue(job("a")), Ok(EnqueuePath::Local)));
    assert!(matches!(q.enqueue(job("b")), Ok(EnqueuePath::Local)));
    assert!(matches!(q.enqueue(job("c")), Err(QueueError::Saturated)));
    // Queued is written before the delivery attempt, so the refused job is
    // visible as Queued, but it holds no buffer slot.
    assert!(matches!(q.get_status("c"), Some(JobStatus::Queued)));
    assert_eq!(q.dequeue().unwrap().job_id, "a");
    assert_eq!(q.dequeue().unwrap().job_id, "b");
    assert!(q.dequeue().is_none());
}

#[test]
fn test_queue_fifo_and_status() {
    let mut q = Queue::new(8, false);
    q.enqueue(job("a")).unwrap();
    q.enqueue(job("b")).unwrap();
    assert!(matches!(q.get_status("a"), Some(JobStatus::Queued)));
    assert!(matches!(q.get_status("b"), Some(JobStatus::Queued)));
    assert!(q.get_status("missing").is_none());
    let first = q.dequeue().unwrap();
    assert_eq!(first.job_id, "a");
    let second = q.dequeue().unwrap();
    assert_eq!(second.job_id, "b");
    assert!(q.dequeue().is_none());
}

#[test]
fn test_queue_mirror_paths() {
    let mut q = Queue::new(1, true);
    // With a mirror, enqueue records Queued and routes to the mirror.
    assert!(matches!(q.enqueue(job("a")), Ok(EnqueuePath::Mirrored)));
    assert!(q.dequeue().is_none());
    // The redelivery task forwards into the local buffer.
    assert!(q.forward_to_local(job("a")).is_ok());
    assert!(matches!(q.forward_to_local(job("x")), Err(QueueError::Saturated)));
    assert_eq!(q.dequeue().unwrap().job_id, "a");
}

#[test]
fn test_status_lifecycle() {
    // Queued -> Processing(0) -> Processing(20) -> Processing(80) ->
    // Completed; terminal states admit no further writes.
    let mut q = Queue::new(4, false);
    q.enqueue(job("j")).unwrap();
    let id = "j".to_string();
    assert!(begin_job(&mut q, &id));
    assert!(matches!(q.get_status("j"), Some(JobStatus::Processing { progress: 0 })));
    assert!(record_progress(&mut q, &id, 20));
    assert!(record_progress(&mut q, &id, 80));
    // Progress never decreases.
    assert!(!record_progress(&mut q, &id, 20));
    assert!(complete_job(&mut q, &id, "/results/j.png".to_string()));
    match q.get_status("j") {
        Some(JobStatus::Completed { result_url }) => {
            assert_eq!(result_url, "/results/j.png");
        }
        _ => panic!("expected Completed"),
    }
    // Nothing leaves a terminal state.
    assert!(!fail_job(&mut q, &id, "late".to_string()));
    assert!(!complete_job(&mut q, &id, "again".to_string()));
    assert!(!begin_job(&mut q, &id));
    assert!(matches!(q.get_status("j"), Some(JobStatus::Completed { .. })));
}

#[test]
fn test_failed_job_lifecycle() {
    let mut q = Queue::new(4, false);
    q.enqueue(job("k")).unwrap();
    let id = "k".to_string();
    assert!(begin_job(&mut q, &id));
    assert!(fail_job(&mut q, &id, "bad media".to_string()));
    match q.get_status("k") {
        Some(JobStatus::Failed { error }) => assert_eq!(error, "bad media"),
        _ => panic!("expected Failed"),
    }
    assert!(!complete_job(&mut q, &id, "r".to_string()));
}

#[test]
fn test_admission_daily_quota() {
    // A free-tier user with daily image limit 10 who already submitted 10
    // image jobs today is denied the 11th.
    let q = quotas();
    match check_quota(&q, 10, "free", "image") {
        Err(QuotaError::Exceeded { count, limit }) => {
            assert_eq!((count, limit), (10, 10));
        }
        _ => panic!("expected a quota refusal"),
    }
    assert!(check_quota(&q, 9, "free", "image").is_ok());
    assert!(check_quota(&q, 3, "free", "video").is_err());
    // Kinds or tiers without a ceiling are unlimited.
    assert!(check_quota(&q, 1000000, "free", "audio").is_ok());
    assert!(check_quota(&q, 1000000, "pro", "image").is_ok());
    assert!(check_quota(&q, 50, "pro", "video").is_err());
    assert!(check_quota(&q, 1000000, "enterprise", "image").is_ok());
}

#[test]
fn test_admission_concurrency() {
    // Concurrency limit 1: admitted with 0 active, denied with 1 active.
    let q = quotas();
    assert!(check_concurrent(&q, 0, "free").is_ok());
    match check_concurrent(&q, 1, "free") {
        Err(QuotaError::Exceeded { count, limit }) => {
            assert_eq!((count, limit), (1, 1));
        }
        _ => panic!("expected a concurrency refusal"),
    }
    assert!(check_concurrent(&q, 4, "pro").is_ok());
    assert!(check_concurrent(&q, 5, "pro").is_err());
    assert!(check_concurrent(&q, 100, "enterprise").is_ok());
}

#[test]
fn test_day_window() {
    // 23:59:59 and 00:00:01 UTC fall in different windows.
    assert!(!same_utc_day(86399, 86401));
    assert!(same_utc_day(86400, 86400 + 86399));
    assert_eq!(utc_day_index(0), 0);
    assert_eq!(utc_day_index(86399), 0);
    assert_eq!(utc_day_index(86400), 1);
    assert_eq!(utc_day_index(-1), -1);
    assert_eq!(utc_day_index(-86400), -1);
    assert_eq!(utc_day_index(-86401), -2);
    assert_eq!(day_start(86399), 0);
    assert_eq!(day_start(86401), 86400);
}

#[test]
fn test_job_kinds_and_filenames() {
    assert!(matches!(JobKind::parse("convert"), Some(JobKind::Convert)));
    assert!(matches!(JobKind::parse("remove_bg"), Some(JobKind::RemoveBg)));
    assert!(matches!(JobKind::parse("color_grade"), Some(JobKind::ColorGrade)));
    assert!(JobKind::parse("transcode").is_none());
    assert_eq!(output_filename(JobKind::RemoveBg, "42", ""), "processed_42.png");
    assert_eq!(output_filename(JobKind::Convert, "42", "jpg"), "converted_42.jpg");
    assert_eq!(output_filename(JobKind::ColorGrade, "42", ""), "graded_42.png");
}

#[test]
fn test_validate_file_rules() {
    let c = config();
    let small = vec![0u8; 16];
    assert!(validate_file("photo.PNG", &small, &c).is_ok());
    assert!(validate_file("clip.Mp4", &small, &c).is_ok());
    assert!(matches!(
        validate_file("notes.txt", &small, &c),
        Err(FileIssue::UnsupportedType)
    ));
    // An image over its 5 MB ceiling is refused with sizes in megabytes.
    let big = vec![0u8; 6 * 1024 * 1024];
    match validate_file("big.jpg", &big, &c) {
        Err(FileIssue::TooLarge { size_mb, max_mb }) => {
            assert_eq!((size_mb, max_mb), (6, 5));
        }
        _ => panic!("expected a size refusal"),
    }
    // The same payload is fine under the 50 MB video ceiling.
    assert!(validate_file("big.webm", &big, &c).is_ok());
}

#[test]
fn test_extensions_and_content_types() {
    assert_eq!(get_file_extension("photo.PNG"), "png");
    assert_eq!(get_file_extension("archive.tar.GZ"), "gz");
    assert_eq!(get_file_extension("noext"), "noext");
    assert_eq!(get_file_extension("dot."), "");
    assert_eq!(get_content_type("a.png"), "image/png");
    assert_eq!(get_content_type("a.JPEG"), "image/jpeg");
    assert_eq!(get_content_type("a.webp"), "image/webp");
    assert_eq!(get_content_type("a.gif"), "image/gif");
    assert_eq!(get_content_type("a.mp4"), "video/mp4");
    assert_eq!(get_content_type("a.mov"), "video/quicktime");
    assert_eq!(get_content_type("a.avi"), "video/x-msvideo");
    assert_eq!(get_content_type("a.webm"), "video/webm");
    assert_eq!(get_content_type("a.bin"), "application/octet-stream");
}

#[test]
fn test_registration_rules() {
    let ok = RegisterRequest {
        email: "a@b.c".to_string(),
        password: "longenough".to_string(),
    };
    assert!(validate_registration(&ok).is_ok());
    let bad_email = RegisterRequest {
        email: "nodomain".to_string(),
        password: "longenough".to_string(),
    };
    assert!(matches!(
        validate_registration(&bad_email),
        Err(CredentialIssue::InvalidEmail)
    ));
    let short_email = RegisterRequest {
        email: "a@b".to_string(),
        password: "longenough".to_string(),
    };
    assert!(matches!(
        validate_registration(&short_email),
        Err(CredentialIssue::InvalidEmail)
    ));
    let weak = RegisterRequest {
        email: "a@b.c".to_string(),
        password: "short".to_string(),
    };
    assert!(matches!(
        validate_registration(&weak),
        Err(CredentialIssue::WeakPassword)
    ));
}

#[test]
fn test_claims_lifetime() {
    let c = Claims::new("u1".to_string(), "a@b.c".to_string(), "free".to_string(), 1000);
    assert_eq!(c.iat, 1000);
    assert_eq!(c.exp, 1000 + 604800);
    assert!(c.live_at(1000 + 604799));
    assert!(!c.live_at(1000 + 604800));
}

#[test]
fn test_run_transform_dispatch() {
    let processor = ImageProcessor::new(String::new()).unwrap();
    let mut img = ImageBuf::new(2, 2);
    for i in 0..4usize {
        img.set_pixel(i, (40, 80, 120, 255));
    }
    let buf = image::RgbaImage::from_raw(2, 2, img.data.clone()).unwrap();
    let mut cur = std::io::Cursor::new(Vec::new());
    buf.write_to(&mut cur, image::ImageFormat::Png).unwrap();
    let png = cur.into_inner();

    // remove_bg with a replacement color composites over the fill.
    let mut p = JobParams::empty();
    p.replace_color = Some((1, 2, 3));
    let out = run_transform(&processor, JobKind::RemoveBg, &p, &png, None).unwrap();
    let decoded = image::load_from_memory(&out).unwrap().to_rgba8();
    assert_eq!(decoded.get_pixel(0, 0).0, [1, 2, 3, 255]);

    // color_grade by preset.
    let mut p2 = JobParams::empty();
    p2.preset = Some("bright".to_string());
    assert!(run_transform(&processor, JobKind::ColorGrade, &p2, &png, None).is_ok());

    // A LUT request without LUT bytes is refused.
    let mut p3 = JobParams::empty();
    p3.lut_location = Some("luts/a.cube".to_string());
    assert!(run_transform(&processor, JobKind::ColorGrade, &p3, &png, None).is_err());

    // convert falls back to PNG when no format is named.
    let p4 = JobParams::empty();
    let conv = run_transform(&processor, JobKind::Convert, &p4, &png, None).unwrap();
    assert_eq!(
        image::guess_format(&conv).unwrap(),
        image::ImageFormat::Png
    );
}
