use base64::Engine;
use chara_card::batch::{convert_pair, embed_into_container, output_path, plan_action, plan_job,
    plan_jobs, summarize, temp_path, Action, JobResult, Outcome};
use chara_card::codec::decode;
use chara_card::errors::ConvertError;
use chara_card::pixels::{encode_raw_image, ColorLayout, RawImage, SampleBuf};

fn good_sidecar(name: &str) -> Vec<u8> {
    format!(
        r#"{{"name":"{name}","personality":"P","description":"D","first_message":"F","example_dialogs":"E","scenario":"S"}}"#
    )
    .into_bytes()
}

fn tiny_png() -> Vec<u8> {
    let img = RawImage {
        layout: ColorLayout::Rgb,
        width: 1,
        height: 1,
        samples: SampleBuf::Eight(vec![1, 2, 3]),
    };
    encode_raw_image(&img).expect("encodes")
}

#[test]
fn plan_job_pairs_image_with_sidecar() {
    let j = plan_job(&b"card01.png".to_vec()).expect("an image entry is a job");
    assert_eq!(j.stem, b"card01".to_vec());
    assert_eq!(j.ext, b"png".to_vec());
    assert_eq!(j.image_name, b"card01.png".to_vec());
    assert_eq!(j.sidecar_name, b"card01.txt".to_vec());
}

#[test]
fn plan_job_ignores_sidecars_and_bare_names() {
    assert!(plan_job(&b"card01.txt".to_vec()).is_none());
    assert!(plan_job(&b"no_extension".to_vec()).is_none());
    assert!(plan_job(&b".hidden".to_vec()).is_none());
}

#[test]
fn plan_job_keeps_the_last_extension() {
    let j = plan_job(&b"a.b.avif".to_vec()).expect("job");
    assert_eq!(j.stem, b"a.b".to_vec());
    assert_eq!(j.ext, b"avif".to_vec());
    assert_eq!(j.sidecar_name, b"a.b.txt".to_vec());
}

#[test]
fn plan_jobs_filters_a_listing() {
    let names = vec![
        b"one.png".to_vec(),
        b"one.txt".to_vec(),
        b"two.avif".to_vec(),
        b"notes".to_vec(),
    ];
    let jobs = plan_jobs(&names);
    assert_eq!(jobs.len(), 2);
    assert_eq!(jobs[0].image_name, b"one.png".to_vec());
    assert_eq!(jobs[1].image_name, b"two.avif".to_vec());
}

#[test]
fn paths_are_derived_exactly() {
    assert_eq!(
        output_path(&b"./output".to_vec(), &b"id7".to_vec()),
        b"./output/id7.png".to_vec()
    );
    assert_eq!(
        temp_path(&b"./new".to_vec(), &b"id7".to_vec()),
        b"./new/temp/id7.png".to_vec()
    );
}

#[test]
fn existing_output_is_skipped() {
    assert_eq!(plan_action(true), Action::Skip);
    assert_eq!(plan_action(false), Action::Convert);
}

#[test]
fn converted_pair_carries_the_embedded_payload() {
    let out = convert_pair(&tiny_png(), &good_sidecar("Card")).expect("converts");
    let container = decode(&out).expect("output is a well-formed container");
    let text: Vec<_> =
        container.chunks.iter().filter(|c| c.tag == b"tEXt".to_vec()).collect();
    assert_eq!(text.len(), 1);
    assert_eq!(&text[0].data[0..6], b"chara\0");
    let json = base64::engine::general_purpose::STANDARD
        .decode(&text[0].data[6..])
        .expect("base64 payload");
    let v: serde_json::Value = serde_json::from_slice(&json).unwrap();
    assert_eq!(v.get("name").unwrap().as_str().unwrap(), "Card");
    assert_eq!(v.get("description").unwrap().as_str().unwrap(), "P");
    assert_eq!(container.chunks.last().unwrap().tag, b"IEND".to_vec());
}

#[test]
fn embed_into_container_refuses_missing_terminal() {
    // a valid chunk stream that does not end with the terminal chunk
    let c = chara_card::codec::Container {
        chunks: vec![chara_card::codec::Chunk { tag: b"IDAT".to_vec(), data: vec![1] }],
    };
    let bytes = chara_card::codec::encode(&c);
    assert!(matches!(
        embed_into_container(&bytes, b"p".to_vec()),
        Err(ConvertError::TruncatedError)
    ));
}

#[test]
fn batch_isolates_a_single_failure() {
    // five jobs; the third sidecar is malformed and must fail alone
    let names: Vec<Vec<u8>> = (1..=5).map(|i| format!("job{i}.png").into_bytes()).collect();
    let png = tiny_png();
    let mut results: Vec<JobResult> = Vec::new();
    for (i, name) in names.iter().enumerate() {
        let sidecar = if i == 2 {
            b"{ this is not json".to_vec()
        } else {
            good_sidecar("X")
        };
        let outcome = match convert_pair(&png, &sidecar) {
            Ok(_) => Outcome::Success,
            Err(e) => Outcome::Failure(e),
        };
        results.push(JobResult { name: name.clone(), outcome });
    }
    let report = summarize(&results);
    assert_eq!(report.attempted, 5);
    assert_eq!(report.succeeded, 4);
    assert_eq!(report.failed, 1);
    assert_eq!(report.skipped, 0);
    assert_eq!(report.failures.len(), 1);
    assert_eq!(report.failures[0].0, b"job3.png".to_vec());
    assert!(matches!(report.failures[0].1, ConvertError::SchemaError));
}

#[test]
fn summarize_preserves_io_failures() {
    let results = vec![
        JobResult { name: b"a.png".to_vec(), outcome: Outcome::Success },
        JobResult {
            name: b"b.png".to_vec(),
            outcome: Outcome::Failure(ConvertError::IoError("disk unplugged".to_string())),
        },
    ];
    let report = summarize(&results);
    assert_eq!(report.failed, 1);
    assert_eq!(report.failures[0].0, b"b.png".to_vec());
    match &report.failures[0].1 {
        ConvertError::IoError(msg) => assert_eq!(msg, "disk unplugged"),
        other => panic!("the cause must be preserved, got {other:?}"),
    }
}

#[test]
fn second_run_reports_every_job_skipped() {
    // with every output present, each job is skipped without conversion
    let results: Vec<JobResult> = (1..=5)
        .map(|i| {
            let action = plan_action(true);
            assert_eq!(action, Action::Skip);
            JobResult { name: format!("job{i}.png").into_bytes(), outcome: Outcome::Skipped }
        })
        .collect();
    let report = summarize(&results);
    assert_eq!(report.attempted, 5);
    assert_eq!(report.skipped, 5);
    assert_eq!(report.succeeded, 0);
    assert_eq!(report.failed, 0);
    assert!(report.failures.is_empty());
}
