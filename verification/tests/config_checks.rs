use crawler::config::{Config, ConfigError, FileConfig};

fn file(mimetype: &str, prefix: &str, ext: &str, folder: &str, min: usize, max: usize) -> FileConfig {
    FileConfig {
        mimetype: mimetype.to_string(),
        file_prefix: prefix.to_string(),
        file_extension: ext.to_string(),
        folder_name: folder.to_string(),
        min_size: min,
        max_size: max,
    }
}

fn good() -> Config {
    Config {
        initial_urls: vec!["http://example.com/".to_string()],
        report_period: 1000,
        enable_https: false,
        client_threads: 2,
        dns_threads: 1,
        request_timeout: 5000,
        max_body_len: 1 << 20,
        client_buffer_size: 8,
        max_urls_per_html: 100,
        max_urls_per_host_per_html: 4,
        max_urls_in_reservoir: 1000,
        files_to_gather: vec![file("image/png", "img_", "png", "pngs", 10, 100)],
    }
}

#[test]
fn valid_config_passes() {
    assert_eq!(good().validate(), Ok(()));
    let mut c = good();
    c.files_to_gather = vec![];
    assert_eq!(c.validate(), Ok(()));
}

#[test]
fn each_requirement_is_reported() {
    let mut c = good();
    c.initial_urls = vec![];
    assert_eq!(c.validate(), Err(ConfigError::NoInitialUrls));

    let mut c = good();
    c.initial_urls.push(String::new());
    assert_eq!(c.validate(), Err(ConfigError::EmptyInitialUrl));

    let mut c = good();
    c.client_threads = 0;
    assert_eq!(c.validate(), Err(ConfigError::NoClientThreads));

    let mut c = good();
    c.dns_threads = 0;
    assert_eq!(c.validate(), Err(ConfigError::NoDnsThreads));

    let mut c = good();
    c.request_timeout = 0;
    assert_eq!(c.validate(), Err(ConfigError::NoRequestTimeout));

    let mut c = good();
    c.max_body_len = 0;
    assert_eq!(c.validate(), Err(ConfigError::NoMaxBodyLen));

    let mut c = good();
    c.client_buffer_size = 0;
    assert_eq!(c.validate(), Err(ConfigError::NoClientBufferSize));

    let mut c = good();
    c.max_urls_per_html = 0;
    assert_eq!(c.validate(), Err(ConfigError::NoMaxUrlsPerHtml));

    let mut c = good();
    c.max_urls_per_host_per_html = 0;
    assert_eq!(c.validate(), Err(ConfigError::NoMaxUrlsPerHostPerHtml));

    let mut c = good();
    c.max_urls_in_reservoir = 0;
    assert_eq!(c.validate(), Err(ConfigError::NoMaxUrlsInReservoir));

    let mut c = good();
    c.files_to_gather.push(file("", "p", "e", "f", 1, 2));
    assert_eq!(c.validate(), Err(ConfigError::EmptyMimetype));

    let mut c = good();
    c.files_to_gather.push(file("m", "p", "", "f", 1, 2));
    assert_eq!(c.validate(), Err(ConfigError::EmptyFileExtension));

    let mut c = good();
    c.files_to_gather.push(file("m", "p", "e", "", 1, 2));
    assert_eq!(c.validate(), Err(ConfigError::EmptyFolderName));

    let mut c = good();
    c.files_to_gather.push(file("m", "p", "a/b", "f", 1, 2));
    assert_eq!(c.validate(), Err(ConfigError::SlashInFileExtension));

    let mut c = good();
    c.files_to_gather.push(file("m", "dir/", "e", "f", 1, 2));
    assert_eq!(c.validate(), Err(ConfigError::SlashInFilePrefix));

    let mut c = good();
    c.files_to_gather.push(file("m", "p", "e", "f", 2, 2));
    assert_eq!(c.validate(), Err(ConfigError::MinSizeNotBelowMaxSize));
}

#[test]
fn first_broken_requirement_wins() {
    let mut c = good();
    c.client_threads = 0;
    c.max_body_len = 0;
    assert_eq!(c.validate(), Err(ConfigError::NoClientThreads));
    let mut c = good();
    c.files_to_gather.push(file("m", "p/", "e/", "f", 3, 2));
    assert_eq!(c.validate(), Err(ConfigError::SlashInFileExtension));
}
