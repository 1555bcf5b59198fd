use laya::options::{ImageDecoderOptions, ImageSourceOptions, KakaduOptions, Rt, TokioRuntimeOptions};

#[test]
fn the_default_runtime_is_tokio() {
    assert_eq!(Rt::default(), Rt::Tokio);
}

#[test]
fn options_hold_their_values() {
    let decoder = ImageDecoderOptions { kakadu: KakaduOptions { decoder_threads: Some(4), memory_limit: None } };
    assert_eq!(decoder.kakadu.decoder_threads, Some(4));
    let runtime = TokioRuntimeOptions { listener_threads: 1, io_threads: 2 };
    assert_eq!(runtime.io_threads, 2);
    assert_eq!(
        ImageSourceOptions::Local { path: "/srv".to_string() },
        ImageSourceOptions::Local { path: "/srv".to_string() }
    );
}
