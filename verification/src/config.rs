//! The configuration model: a list of sources, each with a unique name, a
//! destination relative to the context root, and (for most kinds) an
//! optional list of raw file-rule strings.
//!
//! A source's provenance (repository, URL, local path, shell script) is
//! irrelevant to classification and reconciliation, which only consume its
//! destination and rules; the kind-specific fields are carried for the
//! materialization collaborators outside this crate.

use vstd::prelude::*;
use vstd::string::StringExecFns;

verus! {

/// The model of an `Option<String>`: the text it holds, if any.
pub open spec fn opt_text_view(o: Option<String>) -> Option<Seq<char>> {
    match o {
        Some(s) => Some(s@),
        None => None,
    }
}

/// The model of an `Option<Vec<String>>`: the texts it holds, if any.
pub open spec fn opt_texts_view(o: Option<Vec<String>>) -> Option<Seq<Seq<char>>> {
    match o {
        Some(v) => Some(v.deep_view()),
        None => None,
    }
}

/// One configured origin contributing content below the context root.
#[derive(Debug, Clone)]
pub enum Source {
    Repo {
        name: String,
        repo: String,
        branch: Option<String>,
        dest: String,
        files: Option<Vec<String>>,
    },
    Url { name: String, url: String, dest: String, files: Option<Vec<String>> },
    Path { name: String, path: String, dest: String, files: Option<Vec<String>> },
    Sh { name: String, script: String, dest: String },
}

/// The model of a source.
pub ghost enum SourceV {
    Repo {
        name: Seq<char>,
        repo: Seq<char>,
        branch: Option<Seq<char>>,
        dest: Seq<char>,
        files: Option<Seq<Seq<char>>>,
    },
    Url { name: Seq<char>, url: Seq<char>, dest: Seq<char>, files: Option<Seq<Seq<char>>> },
    Path { name: Seq<char>, path: Seq<char>, dest: Seq<char>, files: Option<Seq<Seq<char>>> },
    Sh { name: Seq<char>, script: Seq<char>, dest: Seq<char> },
}

impl SourceV {
    /// The source's unique name.
    pub open spec fn name(self) -> Seq<char> {
        match self {
            SourceV::Repo { name, .. } => name,
            SourceV::Url { name, .. } => name,
            SourceV::Path { name, .. } => name,
            SourceV::Sh { name, .. } => name,
        }
    }

    /// The source's destination path, relative to the context root.
    pub open spec fn dest(self) -> Seq<char> {
        match self {
            SourceV::Repo { dest, .. } => dest,
            SourceV::Url { dest, .. } => dest,
            SourceV::Path { dest, .. } => dest,
            SourceV::Sh { dest, .. } => dest,
        }
    }

    /// The source's raw file-rule strings, if it has any.
    pub open spec fn files(self) -> Option<Seq<Seq<char>>> {
        match self {
            SourceV::Repo { files, .. } => files,
            SourceV::Url { files, .. } => files,
            SourceV::Path { files, .. } => files,
            SourceV::Sh { .. } => None,
        }
    }
}

impl View for Source {
    type V = SourceV;

    open spec fn view(&self) -> SourceV {
        match self {
            Source::Repo { name, repo, branch, dest, files } => SourceV::Repo {
                name: name@,
                repo: repo@,
                branch: opt_text_view(*branch),
                dest: dest@,
                files: opt_texts_view(*files),
            },
            Source::Url { name, url, dest, files } => SourceV::Url {
                name: name@,
                url: url@,
                dest: dest@,
                files: opt_texts_view(*files),
            },
            Source::Path { name, path, dest, files } => SourceV::Path {
                name: name@,
                path: path@,
                dest: dest@,
                files: opt_texts_view(*files),
            },
            Source::Sh { name, script, dest } => SourceV::Sh {
                name: name@,
                script: script@,
                dest: dest@,
            },
        }
    }
}

impl DeepView for Source {
    type V = SourceV;

    open spec fn deep_view(&self) -> SourceV {
        self.view()
    }
}

impl Source {
    /// The source's unique name.
    pub fn name(&self) -> (r: &str)
        ensures
            r@ == self@.name(),
    {
        match self {
            Source::Repo { name, .. } => name.as_str(),
            Source::Url { name, .. } => name.as_str(),
            Source::Path { name, .. } => name.as_str(),
            Source::Sh { name, .. } => name.as_str(),
        }
    }

    /// The source's destination path, relative to the context root.
    pub fn dest(&self) -> (r: &str)
        ensures
            r@ == self@.dest(),
    {
        match self {
            Source::Repo { dest, .. } => dest.as_str(),
            Source::Url { dest, .. } => dest.as_str(),
            Source::Path { dest, .. } => dest.as_str(),
            Source::Sh { dest, .. } => dest.as_str(),
        }
    }

    /// The source's raw file-rule strings, if it has any.
    pub fn files(&self) -> (r: Option<&Vec<String>>)
        ensures
            match r {
                Some(v) => self@.files() == Some(v.deep_view()),
                None => self@.files() is None,
            },
    {
        match self {
            Source::Repo { files: Some(f), .. } => Some(f),
            Source::Url { files: Some(f), .. } => Some(f),
            Source::Path { files: Some(f), .. } => Some(f),
            _ => None,
        }
    }

    /// Overwrites each field for which the update carries a value; fields the
    /// update leaves out, and fields foreign to this source's kind, are kept.
    pub fn apply_update(&mut self, update: SourceUpdate)
        ensures
            final(self)@ == spec_apply_update(old(self)@, update@),
    {
        let SourceUpdate { repo, url, path, dest, branch, files, script } = update;
        let next: Source = match &*self {
            Source::Repo { name, repo: cur_repo, branch: cur_branch, dest: cur_dest, files: cur_files } => {
                Source::Repo {
                    name: name.clone(),
                    repo: match repo {
                        Some(r) => r,
                        None => cur_repo.clone(),
                    },
                    branch: match branch {
                        Some(b) => Some(b),
                        None => clone_opt_text(cur_branch),
                    },
                    dest: match dest {
                        Some(d) => d,
                        None => cur_dest.clone(),
                    },
                    files: match files {
                        Some(f) => Some(f),
                        None => clone_opt_texts(cur_files),
                    },
                }
            },
            Source::Url { name, url: cur_url, dest: cur_dest, files: cur_files } => {
                Source::Url {
                    name: name.clone(),
                    url: match url {
                        Some(u) => u,
                        None => cur_url.clone(),
                    },
                    dest: match dest {
                        Some(d) => d,
                        None => cur_dest.clone(),
                    },
                    files: match files {
                        Some(f) => Some(f),
                        None => clone_opt_texts(cur_files),
                    },
                }
            },
            Source::Path { name, path: cur_path, dest: cur_dest, files: cur_files } => {
                Source::Path {
                    name: name.clone(),
                    path: match path {
                        Some(p) => p,
                        None => cur_path.clone(),
                    },
                    dest: match dest {
                        Some(d) => d,
                        None => cur_dest.clone(),
                    },
                    files: match files {
                        Some(f) => Some(f),
                        None => clone_opt_texts(cur_files),
                    },
                }
            },
            Source::Sh { name, script: cur_script, dest: cur_dest } => {
                Source::Sh {
                    name: name.clone(),
                    script: match script {
                        Some(s) => s,
                        None => cur_script.clone(),
                    },
                    dest: match dest {
                        Some(d) => d,
                        None => cur_dest.clone(),
                    },
                }
            },
        };
        *self = next;
    }
}

/// A partial overwrite of one source's fields, as given on a command line.
#[derive(Debug)]
pub struct SourceUpdate {
    pub repo: Option<String>,
    pub url: Option<String>,
    pub path: Option<String>,
    pub dest: Option<String>,
    pub branch: Option<String>,
    pub files: Option<Vec<String>>,
    pub script: Option<String>,
}

/// The model of a source update.
pub ghost struct SourceUpdateV {
    pub repo: Option<Seq<char>>,
    pub url: Option<Seq<char>>,
    pub path: Option<Seq<char>>,
    pub dest: Option<Seq<char>>,
    pub branch: Option<Seq<char>>,
    pub files: Option<Seq<Seq<char>>>,
    pub script: Option<Seq<char>>,
}

impl View for SourceUpdate {
    type V = SourceUpdateV;

    open spec fn view(&self) -> SourceUpdateV {
        SourceUpdateV {
            repo: opt_text_view(self.repo),
            url: opt_text_view(self.url),
            path: opt_text_view(self.path),
            dest: opt_text_view(self.dest),
            branch: opt_text_view(self.branch),
            files: opt_texts_view(self.files),
            script: opt_text_view(self.script),
        }
    }
}

impl SourceUpdate {
    /// Bundles the optional overwrites as given.
    pub fn from_args(
        repo: Option<String>,
        url: Option<String>,
        path: Option<String>,
        dest: Option<String>,
        branch: Option<String>,
        files: Option<Vec<String>>,
        script: Option<String>,
    ) -> (r: SourceUpdate)
        ensures
            r@ == (SourceUpdateV {
                repo: opt_text_view(repo),
                url: opt_text_view(url),
                path: opt_text_view(path),
                dest: opt_text_view(dest),
                branch: opt_text_view(branch),
                files: opt_texts_view(files),
                script: opt_text_view(script),
            }),
    {
        SourceUpdate { repo, url, path, dest, branch, files, script }
    }
}

/// What removing a name leaves of a source list: every source of that name
/// dropped, the rest in their order.
pub open spec fn remove_named(sources: Seq<SourceV>, name: Seq<char>) -> Seq<SourceV>
    decreases sources.len(),
{
    if sources.len() == 0 {
        Seq::empty()
    } else {
        let rest = remove_named(sources.drop_last(), name);
        if sources.last().name() == name {
            rest
        } else {
            rest.push(sources.last())
        }
    }
}

/// The update's value where it carries one, the current value otherwise.
pub open spec fn override_text(u: Option<Seq<char>>, cur: Seq<char>) -> Seq<char> {
    match u {
        Some(x) => x,
        None => cur,
    }
}

/// The update's value where it carries one, the current optional value
/// otherwise.
pub open spec fn override_opt<T>(u: Option<T>, cur: Option<T>) -> Option<T> {
    match u {
        Some(x) => Some(x),
        None => cur,
    }
}

/// What applying an update leaves of a source: each field for which the
/// update carries a value is overwritten; the name, fields the update leaves
/// out, and fields foreign to the source's kind are kept.
pub open spec fn spec_apply_update(cur: SourceV, u: SourceUpdateV) -> SourceV {
    match cur {
        SourceV::Repo { name, repo, branch, dest, files } => SourceV::Repo {
            name,
            repo: override_text(u.repo, repo),
            branch: override_opt(u.branch, branch),
            dest: override_text(u.dest, dest),
            files: override_opt(u.files, files),
        },
        SourceV::Url { name, url, dest, files } => SourceV::Url {
            name,
            url: override_text(u.url, url),
            dest: override_text(u.dest, dest),
            files: override_opt(u.files, files),
        },
        SourceV::Path { name, path, dest, files } => SourceV::Path {
            name,
            path: override_text(u.path, path),
            dest: override_text(u.dest, dest),
            files: override_opt(u.files, files),
        },
        SourceV::Sh { name, script, dest } => SourceV::Sh {
            name,
            script: override_text(u.script, script),
            dest: override_text(u.dest, dest),
        },
    }
}

fn clone_opt_text(o: &Option<String>) -> (r: Option<String>)
    ensures
        opt_text_view(r) == opt_text_view(*o),
{
    match o {
        Some(s) => Some(s.clone()),
        None => None,
    }
}

fn clone_opt_texts(o: &Option<Vec<String>>) -> (r: Option<Vec<String>>)
    ensures
        opt_texts_view(r) == opt_texts_view(*o),
{
    match o {
        Some(v) => Some(crate::paths::path_clone(v)),
        None => None,
    }
}

fn source_name_is(s: &Source, name: &String) -> (r: bool)
    ensures
        r == (s@.name() == name@),
{
    match s {
        Source::Repo { name: n, .. } => *n == *name,
        Source::Url { name: n, .. } => *n == *name,
        Source::Path { name: n, .. } => *n == *name,
        Source::Sh { name: n, .. } => *n == *name,
    }
}

/// The whole declarative configuration: a format version, the context folder
/// name, and the source list.
#[derive(Debug)]
pub struct ContextConfig {
    pub version: u8,
    pub dest: Option<String>,
    pub sources: Vec<Source>,
}

/// The model of a configuration.
pub ghost struct ConfigV {
    pub version: u8,
    pub dest: Option<Seq<char>>,
    pub sources: Seq<SourceV>,
}

impl View for ContextConfig {
    type V = ConfigV;

    open spec fn view(&self) -> ConfigV {
        ConfigV {
            version: self.version,
            dest: opt_text_view(self.dest),
            sources: self.sources.deep_view(),
        }
    }
}

impl ContextConfig {
    /// Appends a source to the list.
    pub fn add_source(&mut self, source: Source)
        ensures
            final(self)@ == (ConfigV {
                sources: old(self)@.sources.push(source@),
                ..old(self)@
            }),
    {
        self.sources.push(source);
        proof {
            assert(self.sources.deep_view() =~= old(self).sources.deep_view().push(source@));
        }
    }

    /// Drops every source of the given name; reports whether any was
    /// dropped.
    pub fn remove_source(&mut self, name: &str) -> (r: bool)
        ensures
            final(self)@ == (ConfigV {
                sources: remove_named(old(self)@.sources, name@),
                ..old(self)@
            }),
            r == exists|i: int|
                0 <= i < old(self)@.sources.len() && (#[trigger] old(self)@.sources[i]).name()
                    == name@,
    {
        let name_owned: String = name.to_owned();
        let ghost orig = self.sources.deep_view();
        let mut tmp: Vec<Source> = Vec::new();
        core::mem::swap(&mut self.sources, &mut tmp);
        let total = tmp.len();
        let mut found = false;
        let mut i: usize = 0;
        proof {
            assert(tmp.deep_view() =~= orig.skip(0));
            assert(self.sources.deep_view() =~= remove_named(orig.take(0), name@));
        }
        while i < total
            invariant
                total == orig.len(),
                i <= total,
                name_owned@ == name@,
                tmp.deep_view() == orig.skip(i as int),
                self.sources.deep_view() == remove_named(orig.take(i as int), name@),
                self.version == old(self).version,
                opt_text_view(self.dest) == opt_text_view(old(self).dest),
                found == exists|k: int| 0 <= k < i && (#[trigger] orig[k]).name() == name@,
            decreases total - i,
        {
            proof {
                assert(tmp@.len() == orig.skip(i as int).len());
            }
            let ghost tmp_pre = tmp@;
            let ghost dv_pre = tmp.deep_view();
            let s = tmp.remove(0);
            proof {
                assert(s.deep_view() == orig.skip(i as int)[0]);
                assert(s@ == orig[i as int]);
                assert forall|k: int| 0 <= k < tmp@.len() implies #[trigger] tmp.deep_view()[k]
                    == orig.skip(i + 1)[k] by {
                    assert(tmp@[k] == tmp_pre[k + 1]);
                    assert(tmp.deep_view()[k] == tmp@[k].deep_view());
                    assert(dv_pre[k + 1] == tmp_pre[k + 1].deep_view());
                    assert(dv_pre[k + 1] == orig.skip(i as int)[k + 1]);
                    assert(orig.skip(i as int)[k + 1] == orig[i + 1 + k]);
                }
            }
            let ghost prev = self.sources.deep_view();
            let is_match = source_name_is(&s, &name_owned);
            if is_match {
                found = true;
                proof {
                    assert((orig[i as int]).name() == name@);
                }
            } else {
                self.sources.push(s);
            }
            proof {
                assert(orig.take(i + 1).drop_last() =~= orig.take(i as int));
                assert(orig.take(i + 1).last() == orig[i as int]);
                if is_match {
                    assert(self.sources.deep_view() == remove_named(orig.take(i + 1), name@));
                } else {
                    assert(self.sources.deep_view() =~= prev.push(orig[i as int]));
                    assert(self.sources.deep_view() =~= remove_named(orig.take(i + 1), name@));
                }
                assert(tmp.deep_view() =~= orig.skip(i + 1));
            }
            i += 1;
        }
        proof {
            assert(orig.take(total as int) =~= orig);
        }
        found
    }

    /// Applies the update to the first source of the given name; reports
    /// whether one was found. When none is, nothing changes.
    pub fn update_source(&mut self, name: &str, update: SourceUpdate) -> (r: bool)
        ensures
            r == exists|i: int|
                0 <= i < old(self)@.sources.len() && (#[trigger] old(self)@.sources[i]).name()
                    == name@,
            r ==> exists|j: int|
                {
                    &&& 0 <= j < old(self)@.sources.len()
                    &&& (#[trigger] old(self)@.sources[j]).name() == name@
                    &&& forall|k: int|
                        0 <= k < j ==> (#[trigger] old(self)@.sources[k]).name() != name@
                    &&& final(self)@ == (ConfigV {
                        sources: old(self)@.sources.update(
                            j,
                            spec_apply_update(old(self)@.sources[j], update@),
                        ),
                        ..old(self)@
                    })
                },
            !r ==> final(self)@ == old(self)@,
    {
        let name_owned: String = name.to_owned();
        let ghost orig = self.sources.deep_view();
        let mut i: usize = 0;
        while i < self.sources.len()
            invariant
                self.sources.deep_view() == orig,
                *self == *old(self),
                name_owned@ == name@,
                i <= orig.len(),
                forall|k: int| 0 <= k < i ==> (#[trigger] orig[k]).name() != name@,
            decreases orig.len() - i,
        {
            if source_name_is(&self.sources[i], &name_owned) {
                proof {
                    assert((old(self)@.sources[i as int]).name() == name@);
                }
                let mut s = self.sources.remove(i);
                s.apply_update(update);
                self.sources.insert(i, s);
                proof {
                    assert(self.sources.deep_view() =~= orig.update(
                        i as int,
                        spec_apply_update(orig[i as int], update@),
                    ));
                    assert((old(self)@.sources[i as int]).name() == name@ && forall|k: int|
                        0 <= k < i ==> (#[trigger] old(self)@.sources[k]).name() != name@);
                }
                return true;
            }
            i += 1;
        }
        false
    }
}

/// Builds a source of the given kind from its fields. The caller supplies
/// the field that the kind requires; kinds other than the four named here
/// are not accepted.
pub fn make_source(
    kind: &str,
    name: String,
    repo: Option<String>,
    url: Option<String>,
    path: Option<String>,
    dest: String,
    branch: Option<String>,
    files: Option<Vec<String>>,
    script: Option<String>,
) -> (r: Source)
    requires
        kind@ == "repo"@ || kind@ == "url"@ || kind@ == "path"@ || kind@ == "sh"@,
        kind@ == "repo"@ ==> repo is Some,
        kind@ == "url"@ ==> url is Some,
        kind@ == "path"@ ==> path is Some,
        kind@ == "sh"@ ==> script is Some,
    ensures
        r@ == spec_make_source(
            kind@,
            name@,
            opt_text_view(repo),
            opt_text_view(url),
            opt_text_view(path),
            dest@,
            opt_text_view(branch),
            opt_texts_view(files),
            opt_text_view(script),
        ),
{
    if kind.to_owned() == String::from_str("repo") {
        Source::Repo { name, repo: repo.unwrap(), branch, dest, files }
    } else if kind.to_owned() == String::from_str("url") {
        Source::Url { name, url: url.unwrap(), dest, files }
    } else if kind.to_owned() == String::from_str("path") {
        Source::Path { name, path: path.unwrap(), dest, files }
    } else {
        Source::Sh { name, script: script.unwrap(), dest }
    }
}

/// The configuration written on first use: version 1, the customary context
/// folder name, and one example source of each kind.
pub fn default_context_config() -> (r: ContextConfig)
    ensures
        r@.version == 1,
        r@.dest == Some(".copilot-context"@),
        r@.sources =~= seq![
            (SourceV::Repo {
                name: "example-repo"@,
                repo: "https://github.com/example/repo.git"@,
                branch: Some("main"@),
                dest: "vendor/example-repo"@,
                files: Some(seq!["*"@]),
            }),
            (SourceV::Url {
                name: "example-url"@,
                url: "https://example.com/file.txt"@,
                dest: "example/file.txt"@,
                files: None,
            }),
            (SourceV::Path {
                name: "local-notes"@,
                path: "README.md"@,
                dest: "vendor/notes/README.md"@,
                files: None,
            }),
            (SourceV::Sh {
                name: "example-script"@,
                script: "echo 'Hello from example script!'\necho 'Current directory: $(pwd)'"@,
                dest: "."@,
            }),
        ],
{
    let star: Vec<String> = vec!["*".to_owned()];
    proof {
        assert(star.deep_view() =~= seq!["*"@]);
    }
    let sources: Vec<Source> = vec![
        Source::Repo {
            name: "example-repo".to_owned(),
            repo: "https://github.com/example/repo.git".to_owned(),
            branch: Some("main".to_owned()),
            dest: "vendor/example-repo".to_owned(),
            files: Some(star),
        },
        Source::Url {
            name: "example-url".to_owned(),
            url: "https://example.com/file.txt".to_owned(),
            dest: "example/file.txt".to_owned(),
            files: None,
        },
        Source::Path {
            name: "local-notes".to_owned(),
            path: "README.md".to_owned(),
            dest: "vendor/notes/README.md".to_owned(),
            files: None,
        },
        Source::Sh {
            name: "example-script".to_owned(),
            script: "echo 'Hello from example script!'\necho 'Current directory: $(pwd)'"
                .to_owned(),
            dest: ".".to_owned(),
        },
    ];
    ContextConfig { version: 1, dest: Some(".copilot-context".to_owned()), sources }
}

/// The source denoted by a kind string and its fields, trying the kinds in
/// the order repo, url, path, sh.
pub open spec fn spec_make_source(
    kind: Seq<char>,
    name: Seq<char>,
    repo: Option<Seq<char>>,
    url: Option<Seq<char>>,
    path: Option<Seq<char>>,
    dest: Seq<char>,
    branch: Option<Seq<char>>,
    files: Option<Seq<Seq<char>>>,
    script: Option<Seq<char>>,
) -> SourceV {
    if kind == "repo"@ {
        SourceV::Repo { name, repo: repo->Some_0, branch, dest, files }
    } else if kind == "url"@ {
        SourceV::Url { name, url: url->Some_0, dest, files }
    } else if kind == "path"@ {
        SourceV::Path { name, path: path->Some_0, dest, files }
    } else {
        SourceV::Sh { name, script: script->Some_0, dest }
    }
}

} // verus!
