use vstd::prelude::*;
use crate::text::{occurs_at, occurs_in, str_contains};

verus! {

/// What to do with one kind of file that the crawler gathers.
#[derive(Clone)]
pub struct FileConfig {
    /// The content type that marks such a file.
    pub mimetype: String,
    pub file_prefix: String,
    pub file_extension: String,
    pub folder_name: String,
    pub min_size: usize,
    pub max_size: usize,
}

/// The crawler's configuration.
pub struct Config {
    /// Where the crawl starts.
    pub initial_urls: Vec<String>,
    /// Milliseconds between two reports.
    pub report_period: u64,
    /// Whether the clients speak HTTPS too.
    pub enable_https: bool,
    /// How many client threads run.
    pub client_threads: usize,
    pub dns_threads: usize,
    /// Milliseconds that a request may take.
    pub request_timeout: u64,
    /// The longest body that a client accepts, in bytes.
    pub max_body_len: usize,
    /// How many requests a client has under way at once.
    pub client_buffer_size: usize,
    pub max_urls_per_html: usize,
    pub max_urls_per_host_per_html: usize,
    /// The room that the reservoir starts with.
    pub max_urls_in_reservoir: usize,
    /// The kinds of file that the crawler gathers.
    pub files_to_gather: Vec<FileConfig>,
}

/// The first requirement on a configuration that it breaks, in the order in
/// which they are checked.
#[derive(PartialEq, Eq, Structural, Clone, Copy, Debug)]
pub enum ConfigError {
    NoInitialUrls,
    EmptyInitialUrl,
    NoClientThreads,
    NoDnsThreads,
    NoRequestTimeout,
    NoMaxBodyLen,
    NoClientBufferSize,
    NoMaxUrlsPerHtml,
    NoMaxUrlsPerHostPerHtml,
    NoMaxUrlsInReservoir,
    EmptyMimetype,
    EmptyFileExtension,
    EmptyFolderName,
    SlashInFileExtension,
    SlashInFilePrefix,
    MinSizeNotBelowMaxSize,
}

/// The text `/`.
pub open spec fn slash() -> Seq<char> {
    seq!['/']
}

impl Config {
    /// The first requirement that this configuration breaks, if any.
    pub open spec fn first_violation(&self) -> Option<ConfigError> {
        let files = self.files_to_gather@;
        if self.initial_urls@.len() == 0 {
            Some(ConfigError::NoInitialUrls)
        } else if exists|i: int| 0 <= i < self.initial_urls@.len() && #[trigger] self.initial_urls@[i]@.len() == 0 {
            Some(ConfigError::EmptyInitialUrl)
        } else if self.client_threads == 0 {
            Some(ConfigError::NoClientThreads)
        } else if self.dns_threads == 0 {
            Some(ConfigError::NoDnsThreads)
        } else if self.request_timeout == 0 {
            Some(ConfigError::NoRequestTimeout)
        } else if self.max_body_len == 0 {
            Some(ConfigError::NoMaxBodyLen)
        } else if self.client_buffer_size == 0 {
            Some(ConfigError::NoClientBufferSize)
        } else if self.max_urls_per_html == 0 {
            Some(ConfigError::NoMaxUrlsPerHtml)
        } else if self.max_urls_per_host_per_html == 0 {
            Some(ConfigError::NoMaxUrlsPerHostPerHtml)
        } else if self.max_urls_in_reservoir == 0 {
            Some(ConfigError::NoMaxUrlsInReservoir)
        } else if exists|i: int| 0 <= i < files.len() && #[trigger] files[i].mimetype@.len() == 0 {
            Some(ConfigError::EmptyMimetype)
        } else if exists|i: int| 0 <= i < files.len() && #[trigger] files[i].file_extension@.len() == 0 {
            Some(ConfigError::EmptyFileExtension)
        } else if exists|i: int| 0 <= i < files.len() && #[trigger] files[i].folder_name@.len() == 0 {
            Some(ConfigError::EmptyFolderName)
        } else if exists|i: int| 0 <= i < files.len() && occurs_in(#[trigger] files[i].file_extension@, slash()) {
            Some(ConfigError::SlashInFileExtension)
        } else if exists|i: int| 0 <= i < files.len() && occurs_in(#[trigger] files[i].file_prefix@, slash()) {
            Some(ConfigError::SlashInFilePrefix)
        } else if exists|i: int| 0 <= i < files.len() && #[trigger] files[i].min_size >= files[i].max_size {
            Some(ConfigError::MinSizeNotBelowMaxSize)
        } else {
            None
        }
    }

    /// A configuration is accepted exactly when it has an initial URL, no
    /// empty one, at least one client thread and one DNS thread, a non-zero
    /// timeout, body limit, buffer size, URL limits and reservoir room, and
    /// every kind of file has a non-empty mimetype, extension and folder, no
    /// `/` in its extension or prefix, and a minimum size below its maximum.
    /// When the URLs are in order, no client thread is the first fault found
    /// exactly when there is none.
    pub proof fn lemma_accepted_exactly_when_sound(&self)
        ensures
            self.first_violation() is None <==> {
                &&& self.initial_urls@.len() > 0
                &&& forall|i: int| 0 <= i < self.initial_urls@.len() ==> #[trigger] self.initial_urls@[i]@.len() > 0
                &&& self.client_threads > 0
                &&& self.dns_threads > 0
                &&& self.request_timeout > 0
                &&& self.max_body_len > 0
                &&& self.client_buffer_size > 0
                &&& self.max_urls_per_html > 0
                &&& self.max_urls_per_host_per_html > 0
                &&& self.max_urls_in_reservoir > 0
                &&& forall|i: int|
                    0 <= i < self.files_to_gather@.len() ==> {
                        let f = #[trigger] self.files_to_gather@[i];
                        &&& f.mimetype@.len() > 0
                        &&& f.file_extension@.len() > 0
                        &&& f.folder_name@.len() > 0
                        &&& forall|k: int| 0 <= k < f.file_extension@.len() ==> f.file_extension@[k] != '/'
                        &&& forall|k: int| 0 <= k < f.file_prefix@.len() ==> f.file_prefix@[k] != '/'
                        &&& f.min_size < f.max_size
                    }
            },
            (self.initial_urls@.len() > 0 && forall|i: int|
                0 <= i < self.initial_urls@.len() ==> #[trigger] self.initial_urls@[i]@.len() > 0) ==> (
            self.first_violation() == Some(ConfigError::NoClientThreads) <==> self.client_threads == 0),
    {
        assert forall|t: Seq<char>| occurs_in(t, slash()) <==> exists|k: int| 0 <= k < t.len() && t[k] == '/' by {
            if occurs_in(t, slash()) {
                let s = choose|s: int| occurs_at(t, slash(), s);
                assert(t.subrange(s, s + 1)[0] == t[s]);
            }
            if exists|k: int| 0 <= k < t.len() && t[k] == '/' {
                let k = choose|k: int| 0 <= k < t.len() && t[k] == '/';
                assert(t.subrange(k, k + 1) =~= slash());
                assert(occurs_at(t, slash(), k));
            }
        }
    }

    /// Checks every requirement on the configuration and reports the first
    /// one that it breaks.
    #[verifier::loop_isolation(false)]
    pub fn validate(&self) -> (res: Result<(), ConfigError>)
        ensures
            res is Ok <==> self.first_violation() is None,
            res matches Err(e) ==> self.first_violation() == Some(e),
    {
        if self.initial_urls.len() == 0 {
            return Err(ConfigError::NoInitialUrls);
        }
        let mut i: usize = 0;
        while i < self.initial_urls.len()
            invariant
                i <= self.initial_urls@.len(),
                forall|j: int| 0 <= j < i ==> #[trigger] self.initial_urls@[j]@.len() != 0,
            decreases self.initial_urls@.len() - i,
        {
            if self.initial_urls[i].as_str().is_empty() {
                assert(self.initial_urls@[i as int]@.len() == 0);
                return Err(ConfigError::EmptyInitialUrl);
            }
            i += 1;
        }
        if self.client_threads == 0 {
            return Err(ConfigError::NoClientThreads);
        }
        if self.dns_threads == 0 {
            return Err(ConfigError::NoDnsThreads);
        }
        if self.request_timeout == 0 {
            return Err(ConfigError::NoRequestTimeout);
        }
        if self.max_body_len == 0 {
            return Err(ConfigError::NoMaxBodyLen);
        }
        if self.client_buffer_size == 0 {
            return Err(ConfigError::NoClientBufferSize);
        }
        if self.max_urls_per_html == 0 {
            return Err(ConfigError::NoMaxUrlsPerHtml);
        }
        if self.max_urls_per_host_per_html == 0 {
            return Err(ConfigError::NoMaxUrlsPerHostPerHtml);
        }
        if self.max_urls_in_reservoir == 0 {
            return Err(ConfigError::NoMaxUrlsInReservoir);
        }
        let files = &self.files_to_gather;
        let mut i: usize = 0;
        while i < files.len()
            invariant
                i <= files@.len(),
                forall|j: int| 0 <= j < i ==> #[trigger] files@[j].mimetype@.len() != 0,
            decreases files@.len() - i,
        {
            if files[i].mimetype.as_str().is_empty() {
                assert(files@[i as int].mimetype@.len() == 0);
                return Err(ConfigError::EmptyMimetype);
            }
            i += 1;
        }
        let mut i: usize = 0;
        while i < files.len()
            invariant
                i <= files@.len(),
                forall|j: int| 0 <= j < i ==> #[trigger] files@[j].file_extension@.len() != 0,
            decreases files@.len() - i,
        {
            if files[i].file_extension.as_str().is_empty() {
                assert(files@[i as int].file_extension@.len() == 0);
                return Err(ConfigError::EmptyFileExtension);
            }
            i += 1;
        }
        let mut i: usize = 0;
        while i < files.len()
            invariant
                i <= files@.len(),
                forall|j: int| 0 <= j < i ==> #[trigger] files@[j].folder_name@.len() != 0,
            decreases files@.len() - i,
        {
            if files[i].folder_name.as_str().is_empty() {
                assert(files@[i as int].folder_name@.len() == 0);
                return Err(ConfigError::EmptyFolderName);
            }
            i += 1;
        }
        let slash_str = "/";
        proof {
            reveal_strlit("/");
        }
        assert(slash_str@ =~= slash());
        let mut i: usize = 0;
        while i < files.len()
            invariant
                i <= files@.len(),
                slash_str@ == slash(),
                forall|j: int| 0 <= j < i ==> !occurs_in(#[trigger] files@[j].file_extension@, slash()),
            decreases files@.len() - i,
        {
            if str_contains(files[i].file_extension.as_str(), slash_str) {
                assert(occurs_in(files@[i as int].file_extension@, slash()));
                return Err(ConfigError::SlashInFileExtension);
            }
            i += 1;
        }
        let mut i: usize = 0;
        while i < files.len()
            invariant
                i <= files@.len(),
                slash_str@ == slash(),
                forall|j: int| 0 <= j < i ==> !occurs_in(#[trigger] files@[j].file_prefix@, slash()),
            decreases files@.len() - i,
        {
            if str_contains(files[i].file_prefix.as_str(), slash_str) {
                assert(occurs_in(files@[i as int].file_prefix@, slash()));
                return Err(ConfigError::SlashInFilePrefix);
            }
            i += 1;
        }
        let mut i: usize = 0;
        while i < files.len()
            invariant
                i <= files@.len(),
                forall|j: int| 0 <= j < i ==> #[trigger] files@[j].min_size < files@[j].max_size,
            decreases files@.len() - i,
        {
            if files[i].min_size >= files[i].max_size {
                assert(files@[i as int].min_size >= files@[i as int].max_size);
                return Err(ConfigError::MinSizeNotBelowMaxSize);
            }
            i += 1;
        }
        Ok(())
    }
}

} // verus!
