//! The whisper.cpp models offered for download, where they are stored,
//! and the decisions around downloading them and building whisper.cpp.
use vstd::prelude::*;
use crate::shortcut::owned;
use crate::text::{chars_of, find_exec, matches_at, push_str, string_from_chars};

verus! {

/// A downloadable whisper.cpp model.
pub struct WhisperModel {
    pub label: &'static str,
    pub size: &'static str,
    pub url: &'static str,
    pub filename: &'static str,
}

/// The abstract value of a model.
pub struct ModelView {
    pub label: Seq<char>,
    pub size: Seq<char>,
    pub url: Seq<char>,
    pub filename: Seq<char>,
}

impl View for WhisperModel {
    type V = ModelView;

    open spec fn view(&self) -> ModelView {
        ModelView { label: self.label@, size: self.size@, url: self.url@, filename: self.filename@ }
    }
}

/// The models offered, from the smallest to the largest.
pub open spec fn spec_models() -> Seq<ModelView> {
    seq![
        ModelView {
            label: "Tiny"@,
            size: "~75 MB"@,
            url: "https://huggingface.co/ggerganov/whisper.cpp/resolve/main/ggml-tiny.bin"@,
            filename: "ggml-tiny.bin"@,
        },
        ModelView {
            label: "Base"@,
            size: "~142 MB"@,
            url: "https://huggingface.co/ggerganov/whisper.cpp/resolve/main/ggml-base.bin"@,
            filename: "ggml-base.bin"@,
        },
        ModelView {
            label: "Small"@,
            size: "~466 MB"@,
            url: "https://huggingface.co/ggerganov/whisper.cpp/resolve/main/ggml-small.bin"@,
            filename: "ggml-small.bin"@,
        },
        ModelView {
            label: "Medium"@,
            size: "~1.5 GB"@,
            url: "https://huggingface.co/ggerganov/whisper.cpp/resolve/main/ggml-medium.bin"@,
            filename: "ggml-medium.bin"@,
        },
        ModelView {
            label: "Large v3"@,
            size: "~2.9 GB"@,
            url: "https://huggingface.co/ggerganov/whisper.cpp/resolve/main/ggml-large-v3.bin"@,
            filename: "ggml-large-v3.bin"@,
        },
    ]
}

pub open spec fn models_view(v: Seq<WhisperModel>) -> Seq<ModelView> {
    v.map_values(|m: WhisperModel| m@)
}

/// The models offered, from the smallest to the largest.
pub fn models() -> (r: Vec<WhisperModel>)
    ensures
        models_view(r@) == spec_models(),
{
    let r = vec![
        WhisperModel {
            label: "Tiny",
            size: "~75 MB",
            url: "https://huggingface.co/ggerganov/whisper.cpp/resolve/main/ggml-tiny.bin",
            filename: "ggml-tiny.bin",
        },
        WhisperModel {
            label: "Base",
            size: "~142 MB",
            url: "https://huggingface.co/ggerganov/whisper.cpp/resolve/main/ggml-base.bin",
            filename: "ggml-base.bin",
        },
        WhisperModel {
            label: "Small",
            size: "~466 MB",
            url: "https://huggingface.co/ggerganov/whisper.cpp/resolve/main/ggml-small.bin",
            filename: "ggml-small.bin",
        },
        WhisperModel {
            label: "Medium",
            size: "~1.5 GB",
            url: "https://huggingface.co/ggerganov/whisper.cpp/resolve/main/ggml-medium.bin",
            filename: "ggml-medium.bin",
        },
        WhisperModel {
            label: "Large v3",
            size: "~2.9 GB",
            url: "https://huggingface.co/ggerganov/whisper.cpp/resolve/main/ggml-large-v3.bin",
            filename: "ggml-large-v3.bin",
        },
    ];
    assert(models_view(r@) =~= spec_models());
    r
}

/// `dir` joined with the relative path `name` (as `Path::join` does for
/// a relative `name`: a `/` is put between them unless `dir` is empty or
/// already ends with one).
pub open spec fn spec_join_path(dir: Seq<char>, name: Seq<char>) -> Seq<char> {
    if dir.len() == 0 {
        name
    } else if dir.last() == '/' {
        dir + name
    } else {
        dir + seq!['/'] + name
    }
}

/// `dir` joined with the relative path `name`.
pub fn join_path(dir: &str, name: &str) -> (r: String)
    ensures
        r@ == spec_join_path(dir@, name@),
{
    let mut r = chars_of(dir);
    let n = r.len();
    if n > 0 && r[n - 1] != '/' {
        r.push('/');
    }
    push_str(&mut r, name);
    assert(r@ =~= spec_join_path(dir@, name@));
    string_from_chars(r.as_slice())
}

/// The directory holding the models, inside the user's data directory.
pub fn models_dir(data_dir: &str) -> (r: String)
    ensures
        r@ == spec_join_path(data_dir@, "models"@),
{
    join_path(data_dir, "models")
}

/// Where `model` is stored inside `models_dir`.
pub fn model_path(models_dir: &str, model: &WhisperModel) -> (r: String)
    ensures
        r@ == spec_join_path(models_dir@, model@.filename),
{
    join_path(models_dir, model.filename)
}

/// Where the whisper.cpp program is installed inside `models_dir`.
pub fn whisper_cpp_bin_path(models_dir: &str) -> (r: String)
    ensures
        r@ == spec_join_path(models_dir@, "whisper-cpp"@),
{
    join_path(models_dir, "whisper-cpp")
}

/// A model counts as downloaded when its file exists and holds more than
/// 1000 bytes; `file_size` is the size of the file, if it exists.
pub fn is_downloaded(file_size: Option<u64>) -> (r: bool)
    ensures
        r == (file_size matches Some(n) && n > 1000),
{
    match file_size {
        Some(n) => n > 1000,
        None => false,
    }
}

/// whisper.cpp counts as installed when its program exists and holds
/// more than 1000 bytes; `file_size` is the size of the file, if it exists.
pub fn is_whisper_cpp_installed(file_size: Option<u64>) -> (r: bool)
    ensures
        r == (file_size matches Some(n) && n > 1000),
{
    is_downloaded(file_size)
}

/// The label of a model in the selection list.
pub open spec fn spec_model_label(m: ModelView, downloaded: bool) -> Seq<char> {
    m.label + " ("@ + m.size + ")"@ + if downloaded {
        " \u{2713}"@
    } else {
        Seq::empty()
    }
}

/// The labels of the models, such as `Base (~142 MB) ✓`; `downloaded[i]`
/// tells whether the `i`-th model is downloaded.
pub fn model_labels(downloaded: &[bool]) -> (r: Vec<String>)
    requires
        downloaded@.len() == spec_models().len(),
    ensures
        r@.len() == spec_models().len(),
        forall|i: int|
            0 <= i < r@.len() ==> #[trigger] r@[i]@ == spec_model_label(
                spec_models()[i],
                downloaded@[i],
            ),
{
    let ms = models();
    let mut r: Vec<String> = Vec::new();
    let mut i: usize = 0;
    while i < ms.len()
        invariant
            models_view(ms@) == spec_models(),
            downloaded@.len() == ms@.len(),
            i <= ms@.len(),
            r@.len() == i,
            forall|k: int|
                0 <= k < i ==> #[trigger] r@[k]@ == spec_model_label(
                    spec_models()[k],
                    downloaded@[k],
                ),
        decreases ms.len() - i,
    {
        let m = &ms[i];
        assert(m@ == spec_models()[i as int]);
        let mut l: Vec<char> = Vec::new();
        push_str(&mut l, m.label);
        push_str(&mut l, " (");
        push_str(&mut l, m.size);
        push_str(&mut l, ")");
        if downloaded[i] {
            push_str(&mut l, " \u{2713}");
        }
        assert(l@ =~= spec_model_label(m@, downloaded@[i as int]));
        r.push(string_from_chars(l.as_slice()));
        i += 1;
    }
    r
}

/// `path` contains `part`.
pub open spec fn contains(path: Seq<char>, part: Seq<char>) -> bool {
    exists|i: int| matches_at(path, part, i)
}

/// The index of the first model whose file name occurs in `model_path`.
pub fn find_model_index(model_path: &str) -> (r: Option<usize>)
    ensures
        match r {
            Some(i) => {
                &&& i < spec_models().len()
                &&& contains(model_path@, spec_models()[i as int].filename)
                &&& forall|j: int|
                    0 <= j < i ==> !contains(model_path@, #[trigger] spec_models()[j].filename)
            },
            None => forall|j: int|
                0 <= j < spec_models().len() ==> !contains(
                    model_path@,
                    #[trigger] spec_models()[j].filename,
                ),
        },
{
    let ms = models();
    let pc = chars_of(model_path);
    let mut i: usize = 0;
    while i < ms.len()
        invariant
            models_view(ms@) == spec_models(),
            pc@ == model_path@,
            i <= ms@.len(),
            forall|j: int| 0 <= j < i ==> !contains(model_path@, #[trigger] spec_models()[j].filename),
        decreases ms.len() - i,
    {
        let fc = chars_of(ms[i].filename);
        assert(fc@ == spec_models()[i as int].filename);
        match find_exec(pc.as_slice(), fc.as_slice()) {
            Some(_) => {
                return Some(i);
            },
            None => {},
        }
        i += 1;
    }
    None
}

/// Where to download the model with the given index, and from where;
/// an error for an index outside the list.
pub fn download_target(models_dir: &str, model_index: usize) -> (r: Result<(String, &'static str), String>)
    ensures
        match r {
            Ok((dest, url)) => {
                &&& model_index < spec_models().len()
                &&& dest@ == spec_join_path(models_dir@, spec_models()[model_index as int].filename)
                &&& url@ == spec_models()[model_index as int].url
            },
            Err(e) => model_index >= spec_models().len() && e@ == "Invalid model index"@,
        },
{
    let ms = models();
    if model_index >= ms.len() {
        return Err(owned("Invalid model index"));
    }
    let m = &ms[model_index];
    Ok((model_path(models_dir, m), m.url))
}

/// The smallest size a downloaded model may have.
pub const MIN_DOWNLOAD_SIZE: u64 = 10000;

/// The outcome of a download: `spawned` is the download program's exit
/// success, or the error that kept it from running; `file_size` is the
/// size of the downloaded file, if it exists. The file is to be removed
/// when this is an error although the program ran.
pub fn check_download(spawned: Result<bool, String>, file_size: Option<u64>) -> (r: Result<(), String>)
    ensures
        match spawned {
            Err(e) => r matches Err(m) && m@ == "Failed to run curl: "@ + e@,
            Ok(false) => r matches Err(m) && m@ == "Download failed"@,
            Ok(true) => {
                let n: int = match file_size {
                    Some(n) => n as int,
                    None => 0,
                };
                if n < MIN_DOWNLOAD_SIZE {
                    r matches Err(m) && m@ == "Downloaded file too small \u{2014} check URL"@
                } else {
                    r is Ok
                }
            },
        },
{
    match spawned {
        Err(e) => {
            let mut m = chars_of("Failed to run curl: ");
            push_str(&mut m, e.as_str());
            Err(string_from_chars(m.as_slice()))
        },
        Ok(false) => Err(owned("Download failed")),
        Ok(true) => {
            let n = match file_size {
                Some(n) => n,
                None => 0,
            };
            if n < MIN_DOWNLOAD_SIZE {
                Err(owned("Downloaded file too small \u{2014} check URL"))
            } else {
                Ok(())
            }
        },
    }
}

/// A step of building whisper.cpp from source.
#[derive(Debug, Clone, Copy, PartialEq, Eq, Structural)]
pub enum BuildStep {
    Pull,
    Clone,
    Configure,
    Build,
}

/// Whether the sources are updated with a pull (they are already there)
/// rather than cloned afresh.
pub fn fetch_step(has_cmake_lists: bool) -> (r: BuildStep)
    ensures
        if has_cmake_lists {
            r is Pull
        } else {
            r is Clone
        },
{
    if has_cmake_lists {
        BuildStep::Pull
    } else {
        BuildStep::Clone
    }
}

fn prefixed(prefix: &str, e: &String) -> (r: String)
    ensures
        r@ == prefix@ + e@,
{
    let mut m = chars_of(prefix);
    push_str(&mut m, e.as_str());
    string_from_chars(m.as_slice())
}

/// The order of the build: fetch the sources (pull when they are there,
/// else clone), configure, build, then stop. `done` is the step that just
/// succeeded, none at the start.
pub open spec fn spec_next_build_step(done: Option<BuildStep>, has_cmake_lists: bool) -> Option<
    BuildStep,
> {
    match done {
        None => Some(if has_cmake_lists {
            BuildStep::Pull
        } else {
            BuildStep::Clone
        }),
        Some(BuildStep::Pull) => Some(BuildStep::Configure),
        Some(BuildStep::Clone) => Some(BuildStep::Configure),
        Some(BuildStep::Configure) => Some(BuildStep::Build),
        Some(BuildStep::Build) => None,
    }
}

/// The step to run after `done` succeeded.
pub fn next_build_step(done: Option<BuildStep>, has_cmake_lists: bool) -> (r: Option<BuildStep>)
    ensures
        r == spec_next_build_step(done, has_cmake_lists),
{
    match done {
        None => Some(fetch_step(has_cmake_lists)),
        Some(BuildStep::Pull) => Some(BuildStep::Configure),
        Some(BuildStep::Clone) => Some(BuildStep::Configure),
        Some(BuildStep::Configure) => Some(BuildStep::Build),
        Some(BuildStep::Build) => None,
    }
}

/// Following the order from the start runs exactly three steps: fetch,
/// configure, build.
pub proof fn law_build_runs_three_steps(has_cmake_lists: bool)
    ensures
        ({
            let s1 = spec_next_build_step(None, has_cmake_lists);
            let s2 = spec_next_build_step(s1, has_cmake_lists);
            let s3 = spec_next_build_step(s2, has_cmake_lists);
            &&& s1 is Some && (s1->0 == BuildStep::Pull || s1->0 == BuildStep::Clone)
            &&& s2 == Some(BuildStep::Configure)
            &&& s3 == Some(BuildStep::Build)
            &&& spec_next_build_step(s3, has_cmake_lists) is None
        }),
{
}

/// The message for a step whose program could not be run.
pub open spec fn spawn_error_prefix(step: BuildStep) -> Seq<char> {
    match step {
        BuildStep::Pull => "git pull failed: "@,
        BuildStep::Clone => "git clone failed: "@,
        BuildStep::Configure => "cmake failed: "@,
        BuildStep::Build => "cmake build failed: "@,
    }
}

/// The message for a step whose program reported failure.
pub open spec fn exit_error(step: BuildStep) -> Option<Seq<char>> {
    match step {
        BuildStep::Pull => None,
        BuildStep::Clone => Some("git clone failed"@),
        BuildStep::Configure => Some("cmake configure failed"@),
        BuildStep::Build => Some("cmake build failed"@),
    }
}

/// The outcome of a build step: `spawned` is the program's exit success,
/// or the error that kept it from running. A pull that ran counts as done
/// whatever its exit status.
pub fn check_build_step(step: BuildStep, spawned: Result<bool, String>) -> (r: Result<(), String>)
    ensures
        match spawned {
            Err(e) => r matches Err(m) && m@ == spawn_error_prefix(step) + e@,
            Ok(true) => r is Ok,
            Ok(false) => match exit_error(step) {
                None => r is Ok,
                Some(msg) => r matches Err(m) && m@ == msg,
            },
        },
{
    match spawned {
        Err(e) => {
            let p = match step {
                BuildStep::Pull => "git pull failed: ",
                BuildStep::Clone => "git clone failed: ",
                BuildStep::Configure => "cmake failed: ",
                BuildStep::Build => "cmake build failed: ",
            };
            Err(prefixed(p, &e))
        },
        Ok(true) => Ok(()),
        Ok(false) => match step {
            BuildStep::Pull => Ok(()),
            BuildStep::Clone => Err(owned("git clone failed")),
            BuildStep::Configure => Err(owned("cmake configure failed")),
            BuildStep::Build => Err(owned("cmake build failed")),
        },
    }
}

/// Which built program to install: `Ok(false)` for `whisper-cli`,
/// `Ok(true)` for the older `main`, an error when neither was built.
pub fn choose_built_binary(whisper_cli_exists: bool, main_exists: bool) -> (r: Result<bool, String>)
    ensures
        if whisper_cli_exists {
            r == Ok::<bool, String>(false)
        } else if main_exists {
            r == Ok::<bool, String>(true)
        } else {
            r matches Err(m) && m@ == "Could not find built whisper binary"@
        },
{
    if whisper_cli_exists {
        Ok(false)
    } else if main_exists {
        Ok(true)
    } else {
        Err(owned("Could not find built whisper binary"))
    }
}

/// Facts about a model's file name: it starts with `gg`, holds no `/`,
/// holds `gg` nowhere else, and its sixth character tells it apart from
/// the other models' names.
proof fn lemma_filename_facts(i: int)
    requires
        0 <= i < spec_models().len(),
    ensures
        ({
            let f = spec_models()[i].filename;
            &&& f.len() >= 6
            &&& f[0] == 'g'
            &&& f[1] == 'g'
            &&& forall|k: int| 0 <= k < f.len() ==> f[k] != '/'
            &&& forall|k: int| 1 <= k < f.len() - 1 ==> !(#[trigger] f[k] == 'g' && f[k + 1] == 'g')
        }),
        forall|j: int|
            0 <= j < spec_models().len() && j != i ==> spec_models()[i].filename[5]
                != #[trigger] spec_models()[j].filename[5],
{
    reveal_strlit("ggml-tiny.bin");
    reveal_strlit("ggml-base.bin");
    reveal_strlit("ggml-small.bin");
    reveal_strlit("ggml-medium.bin");
    reveal_strlit("ggml-large-v3.bin");
}

/// No model's file name occurs in another model's file name.
proof fn lemma_name_not_in_other(i: int, j: int)
    requires
        0 <= i < spec_models().len(),
        0 <= j < spec_models().len(),
        i != j,
    ensures
        !contains(spec_models()[i].filename, spec_models()[j].filename),
{
    let fi = spec_models()[i].filename;
    let fj = spec_models()[j].filename;
    lemma_filename_facts(i);
    lemma_filename_facts(j);
    if contains(fi, fj) {
        let k = choose|k: int| matches_at(fi, fj, k);
        assert(fi[k + 0] == fj[0]);
        assert(fi[k + 1] == fj[1]);
        if k >= 1 {
            assert(fi[k] == 'g' && fi[k + 1] == 'g');
        }
        assert(k == 0);
        assert(fi[k + 5] == fj[5]);
        assert(spec_models()[i].filename[5] != spec_models()[j].filename[5]);
    }
}

/// A model's file name occurs in `path + f` only inside `f`, when `path`
/// holds none of the names and `path` is empty or `path + f` has a `/`
/// just before `f`.
proof fn lemma_name_after_slash(pre: Seq<char>, dir: Seq<char>, i: int, j: int)
    requires
        0 <= i < spec_models().len(),
        0 <= j < spec_models().len(),
        i != j,
        !contains(dir, spec_models()[j].filename),
        pre.len() == 0 || (pre.last() == '/' && pre.drop_last().is_prefix_of(dir) && (pre
            == dir || pre.drop_last() == dir)),
    ensures
        !contains(pre + spec_models()[i].filename, spec_models()[j].filename),
{
    let fi = spec_models()[i].filename;
    let fj = spec_models()[j].filename;
    let p = pre + fi;
    lemma_filename_facts(j);
    lemma_name_not_in_other(i, j);
    if contains(p, fj) {
        let k = choose|k: int| matches_at(p, fj, k);
        if k >= pre.len() {
            assert(matches_at(fi, fj, k - pre.len())) by {
                assert forall|m: int| 0 <= m < fj.len() implies #[trigger] fi[(k - pre.len()) + m]
                    == fj[m] by {
                    assert(p[k + m] == fj[m]);
                }
            }
        } else {
            let q = pre.len() - 1;
            if k + fj.len() <= q {
                assert(matches_at(dir, fj, k)) by {
                    assert forall|m: int| 0 <= m < fj.len() implies #[trigger] dir[k + m] == fj[m] by {
                        assert(p[k + m] == fj[m]);
                        assert(dir[k + m] == pre[k + m]);
                    }
                }
            } else {
                assert(p[k + (q - k)] == fj[q - k]);
                assert(p[q] == '/');
            }
        }
    }
}

/// The stored path of a model selects that model again: in
/// `model_path(dir, m)` the file name of `m` occurs and no earlier model's
/// does, as long as `dir` holds no earlier model's file name. With the
/// contract of `find_model_index`, looking the path up gives the model's
/// index.
pub proof fn law_model_path_selects_model(dir: Seq<char>, i: int)
    requires
        0 <= i < spec_models().len(),
        forall|j: int| 0 <= j < i ==> !contains(dir, #[trigger] spec_models()[j].filename),
    ensures
        contains(spec_join_path(dir, spec_models()[i].filename), spec_models()[i].filename),
        forall|j: int|
            0 <= j < i ==> !contains(
                spec_join_path(dir, spec_models()[i].filename),
                #[trigger] spec_models()[j].filename,
            ),
{
    let fi = spec_models()[i].filename;
    let pre: Seq<char> = if dir.len() == 0 {
        Seq::empty()
    } else if dir.last() == '/' {
        dir
    } else {
        dir.push('/')
    };
    assert(spec_join_path(dir, fi) =~= pre + fi);
    assert(matches_at(pre + fi, fi, pre.len() as int)) by {
        assert forall|m: int| 0 <= m < fi.len() implies #[trigger] (pre + fi)[pre.len() + m]
            == fi[m] by {}
    }
    if dir.len() > 0 {
        if dir.last() == '/' {
            assert(pre.drop_last().is_prefix_of(dir));
        } else {
            assert(pre.drop_last() =~= dir);
        }
    }
    assert forall|j: int| 0 <= j < i implies !contains(
        spec_join_path(dir, fi),
        #[trigger] spec_models()[j].filename,
    ) by {
        lemma_name_after_slash(pre, dir, i, j);
    }
}

} // verus!
