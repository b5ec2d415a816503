//! Resources: a URI-addressable unit of model content holding root objects,
//! with load/save state and the messages collected while loading or saving;
//! and resource sets. Reading and writing the file behind a resource is left
//! to the caller: `load_target`/`finish_load` and `save_target`/`finish_save`
//! are the decisions around it.
use vstd::prelude::*;
use crate::emf_common::uri::{file_path, file_word, Uri, UriView};
use crate::emf_common::uri::concat;
use crate::text::{chars_of, string_of};

verus! {

/// The text of each string, in order.
pub open spec fn texts(s: Seq<String>) -> Seq<Seq<char>> {
    s.map_values(|t: String| t@)
}

/// A model resource: its URI, root objects, load and modification state, and
/// the errors and warnings collected while loading or saving.
#[derive(Debug, Clone)]
pub struct Resource<O> {
    uri: Uri,
    contents: Vec<O>,
    loaded: bool,
    modified: bool,
    errors: Vec<String>,
    warnings: Vec<String>,
}

/// The message for a resource whose URI has no file to read or write, for the
/// given verb: "cannot <verb> empty file path".
pub open spec fn empty_path_message(load: bool) -> Seq<char> {
    if load {
        "cannot load from empty file path"@
    } else {
        "cannot save to empty file path"@
    }
}

/// The message for a resource whose URI is not a file URI.
pub open spec fn no_stream_message(scheme: Seq<char>) -> Seq<char> {
    "no stream available for scheme '"@ + scheme + "'"@
}

/// Where loading or saving a resource at `u` goes: the file path of a `file:`
/// URI, unless that is empty; otherwise the error message.
pub open spec fn stream_target(u: UriView, load: bool) -> Result<Seq<char>, Seq<char>> {
    if u.scheme == file_word() {
        if file_path(u).len() == 0 {
            Err(empty_path_message(load))
        } else {
            Ok(file_path(u))
        }
    } else {
        Err(no_stream_message(u.scheme))
    }
}

impl<O> Resource<O> {
    /// The URI.
    pub closed spec fn uri_spec(&self) -> UriView {
        self.uri@
    }

    /// The root objects.
    pub closed spec fn contents_spec(&self) -> Seq<O> {
        self.contents@
    }

    /// The resource was loaded.
    pub closed spec fn loaded_spec(&self) -> bool {
        self.loaded
    }

    /// The resource was modified since it was last saved.
    pub closed spec fn modified_spec(&self) -> bool {
        self.modified
    }

    /// The errors collected.
    pub closed spec fn errors_spec(&self) -> Seq<Seq<char>> {
        texts(self.errors@)
    }

    /// The warnings collected.
    pub closed spec fn warnings_spec(&self) -> Seq<Seq<char>> {
        texts(self.warnings@)
    }

    /// An empty, unloaded, unmodified resource at `uri`.
    pub fn new(uri: Uri) -> (r: Self)
        ensures
            r.uri_spec() == uri@,
            r.contents_spec() == Seq::<O>::empty(),
            !r.loaded_spec(),
            !r.modified_spec(),
            r.errors_spec() == Seq::<Seq<char>>::empty(),
            r.warnings_spec() == Seq::<Seq<char>>::empty(),
    {
        let r = Resource {
            uri,
            contents: Vec::new(),
            loaded: false,
            modified: false,
            errors: Vec::new(),
            warnings: Vec::new(),
        };
        proof {
            assert(r.errors_spec() =~= Seq::<Seq<char>>::empty());
            assert(r.warnings_spec() =~= Seq::<Seq<char>>::empty());
        }
        r
    }

    /// The URI.
    pub fn uri(&self) -> (r: &Uri)
        ensures
            r@ == self.uri_spec(),
    {
        &self.uri
    }

    /// Sets the URI.
    pub fn set_uri(&mut self, uri: Uri)
        ensures
            final(self).uri_spec() == uri@,
            final(self).contents_spec() == old(self).contents_spec(),
            final(self).loaded_spec() == old(self).loaded_spec(),
            final(self).modified_spec() == old(self).modified_spec(),
            final(self).errors_spec() == old(self).errors_spec(),
            final(self).warnings_spec() == old(self).warnings_spec(),
    {
        self.uri = uri;
    }

    /// The root objects.
    pub fn contents(&self) -> (r: &[O])
        ensures
            r@ == self.contents_spec(),
    {
        self.contents.as_slice()
    }

    /// The first root object, if any.
    pub fn root(&self) -> (r: Option<&O>)
        ensures
            self.contents_spec().len() == 0 ==> r is None,
            self.contents_spec().len() > 0 ==> r == Some(&self.contents_spec()[0]),
    {
        if self.contents.len() == 0 {
            None
        } else {
            Some(&self.contents[0])
        }
    }

    /// Makes `obj` the only root object, and marks the resource modified.
    pub fn set_root(&mut self, obj: O)
        ensures
            final(self).contents_spec() == seq![obj],
            final(self).modified_spec(),
            final(self).uri_spec() == old(self).uri_spec(),
            final(self).loaded_spec() == old(self).loaded_spec(),
            final(self).errors_spec() == old(self).errors_spec(),
            final(self).warnings_spec() == old(self).warnings_spec(),
    {
        let mut c: Vec<O> = Vec::new();
        c.push(obj);
        self.contents = c;
        self.modified = true;
    }

    /// Appends a root object, and marks the resource modified.
    pub fn add_to_contents(&mut self, obj: O)
        ensures
            final(self).contents_spec() == old(self).contents_spec().push(obj),
            final(self).modified_spec(),
            final(self).uri_spec() == old(self).uri_spec(),
            final(self).loaded_spec() == old(self).loaded_spec(),
            final(self).errors_spec() == old(self).errors_spec(),
            final(self).warnings_spec() == old(self).warnings_spec(),
    {
        self.contents.push(obj);
        self.modified = true;
    }

    /// Replaces all root objects, and marks the resource modified.
    pub fn set_contents(&mut self, contents: Vec<O>)
        ensures
            final(self).contents_spec() == contents@,
            final(self).modified_spec(),
            final(self).uri_spec() == old(self).uri_spec(),
            final(self).loaded_spec() == old(self).loaded_spec(),
            final(self).errors_spec() == old(self).errors_spec(),
            final(self).warnings_spec() == old(self).warnings_spec(),
    {
        self.contents = contents;
        self.modified = true;
    }

    /// Removes all root objects, and marks the resource modified.
    pub fn clear_contents(&mut self)
        ensures
            final(self).contents_spec() == Seq::<O>::empty(),
            final(self).modified_spec(),
            final(self).uri_spec() == old(self).uri_spec(),
            final(self).loaded_spec() == old(self).loaded_spec(),
            final(self).errors_spec() == old(self).errors_spec(),
            final(self).warnings_spec() == old(self).warnings_spec(),
    {
        self.contents = Vec::new();
        self.modified = true;
    }

    /// Whether the resource was loaded.
    pub fn is_loaded(&self) -> (r: bool)
        ensures
            r == self.loaded_spec(),
    {
        self.loaded
    }

    /// Sets the loaded flag.
    pub fn set_loaded(&mut self, loaded: bool)
        ensures
            final(self).loaded_spec() == loaded,
            final(self).contents_spec() == old(self).contents_spec(),
            final(self).uri_spec() == old(self).uri_spec(),
            final(self).modified_spec() == old(self).modified_spec(),
            final(self).errors_spec() == old(self).errors_spec(),
            final(self).warnings_spec() == old(self).warnings_spec(),
    {
        self.loaded = loaded;
    }

    /// Whether the resource was modified.
    pub fn is_modified(&self) -> (r: bool)
        ensures
            r == self.modified_spec(),
    {
        self.modified
    }

    /// Sets the modified flag.
    pub fn set_modified(&mut self, modified: bool)
        ensures
            final(self).modified_spec() == modified,
            final(self).contents_spec() == old(self).contents_spec(),
            final(self).uri_spec() == old(self).uri_spec(),
            final(self).loaded_spec() == old(self).loaded_spec(),
            final(self).errors_spec() == old(self).errors_spec(),
            final(self).warnings_spec() == old(self).warnings_spec(),
    {
        self.modified = modified;
    }

    /// The errors collected while loading or saving.
    pub fn errors(&self) -> (r: &[String])
        ensures
            texts(r@) == self.errors_spec(),
    {
        self.errors.as_slice()
    }

    /// The warnings collected while loading or saving.
    pub fn warnings(&self) -> (r: &[String])
        ensures
            texts(r@) == self.warnings_spec(),
    {
        self.warnings.as_slice()
    }

    /// Replaces the errors.
    pub fn set_errors(&mut self, errors: Vec<String>)
        ensures
            final(self).errors_spec() == texts(errors@),
            final(self).warnings_spec() == old(self).warnings_spec(),
            final(self).contents_spec() == old(self).contents_spec(),
            final(self).uri_spec() == old(self).uri_spec(),
            final(self).loaded_spec() == old(self).loaded_spec(),
            final(self).modified_spec() == old(self).modified_spec(),
    {
        self.errors = errors;
    }

    /// Replaces the warnings.
    pub fn set_warnings(&mut self, warnings: Vec<String>)
        ensures
            final(self).warnings_spec() == texts(warnings@),
            final(self).errors_spec() == old(self).errors_spec(),
            final(self).contents_spec() == old(self).contents_spec(),
            final(self).uri_spec() == old(self).uri_spec(),
            final(self).loaded_spec() == old(self).loaded_spec(),
            final(self).modified_spec() == old(self).modified_spec(),
    {
        self.warnings = warnings;
    }

    /// The serialized text of the resource: a plain resource has none.
    pub fn save_to_string(&self) -> (r: String)
        ensures
            r@ == Seq::<char>::empty(),
    {
        String::new()
    }

    /// The XMI text of the resource (`save_to_string`).
    pub fn to_xmi_string(&self) -> (r: String)
        ensures
            r@ == Seq::<char>::empty(),
    {
        self.save_to_string()
    }

    /// Reads contents from serialized text: a plain resource reads nothing
    /// and stays as it is (it is not marked loaded).
    pub fn load_from_string(&mut self, src: &str)
        ensures
            *final(self) == *old(self),
    {
    }

    /// Reads contents from XMI text (`load_from_string`).
    pub fn from_xmi_string(&mut self, src: &str)
        ensures
            *final(self) == *old(self),
    {
        self.load_from_string(src);
    }

    /// The object at a URI fragment: a plain resource resolves none.
    pub fn get_eobject(&self, fragment: &str) -> (r: Option<O>)
        ensures
            r is None,
    {
        None
    }

    /// The URI fragment of an object: a plain resource gives the empty text.
    pub fn get_uri_fragment(&self, obj: &O) -> (r: String)
        ensures
            r@ == Seq::<char>::empty(),
    {
        String::new()
    }

    /// The file to read when loading: the file path of a `file:` URI, or the
    /// error that loading reports.
    pub fn load_target(&self) -> (r: Result<String, String>)
        ensures
            match r {
                Ok(p) => stream_target(self.uri_spec(), true) == Ok::<Seq<char>, Seq<char>>(p@),
                Err(e) => stream_target(self.uri_spec(), true) == Err::<Seq<char>, Seq<char>>(e@),
            },
    {
        self.stream_target(true)
    }

    /// Finishes a load whose file held `text`: reads it, and marks the
    /// resource loaded.
    pub fn finish_load(&mut self, text: &str)
        ensures
            final(self).loaded_spec(),
            final(self).contents_spec() == old(self).contents_spec(),
            final(self).uri_spec() == old(self).uri_spec(),
            final(self).modified_spec() == old(self).modified_spec(),
            final(self).errors_spec() == old(self).errors_spec(),
            final(self).warnings_spec() == old(self).warnings_spec(),
    {
        self.load_from_string(text);
        self.loaded = true;
    }

    /// The file to write when saving: the file path of a `file:` URI, or the
    /// error that saving reports.
    pub fn save_target(&self) -> (r: Result<String, String>)
        ensures
            match r {
                Ok(p) => stream_target(self.uri_spec(), false) == Ok::<Seq<char>, Seq<char>>(
                    p@,
                ),
                Err(e) => stream_target(self.uri_spec(), false) == Err::<Seq<char>, Seq<char>>(
                    e@,
                ),
            },
    {
        self.stream_target(false)
    }

    /// Finishes a save whose file was written: the resource is no longer
    /// modified.
    pub fn finish_save(&mut self)
        ensures
            !final(self).modified_spec(),
            final(self).contents_spec() == old(self).contents_spec(),
            final(self).uri_spec() == old(self).uri_spec(),
            final(self).loaded_spec() == old(self).loaded_spec(),
            final(self).errors_spec() == old(self).errors_spec(),
            final(self).warnings_spec() == old(self).warnings_spec(),
    {
        self.modified = false;
    }

    fn stream_target(&self, load: bool) -> (r: Result<String, String>)
        ensures
            match r {
                Ok(p) => stream_target(self.uri_spec(), load) == Ok::<Seq<char>, Seq<char>>(p@),
                Err(e) => stream_target(self.uri_spec(), load) == Err::<Seq<char>, Seq<char>>(e@),
            },
    {
        if self.uri.is_file() {
            let path = self.uri.to_file_path();
            if path.as_str().is_empty() {
                if load {
                    proof {
                        reveal_strlit("cannot load from empty file path");
                    }
                    Err("cannot load from empty file path".to_owned())
                } else {
                    proof {
                        reveal_strlit("cannot save to empty file path");
                    }
                    Err("cannot save to empty file path".to_owned())
                }
            } else {
                Ok(path)
            }
        } else {
            let head = chars_of("no stream available for scheme '");
            let scheme = chars_of(self.uri.scheme());
            let tail = chars_of("'");
            let a = concat(head.as_slice(), scheme.as_slice());
            let b = concat(a.as_slice(), tail.as_slice());
            Err(string_of(b.as_slice()))
        }
    }
}

impl<O> Default for Resource<O> {
    fn default() -> (r: Self)
        ensures
            r.contents_spec() == Seq::<O>::empty(),
            !r.loaded_spec(),
            !r.modified_spec(),
            r.errors_spec() == Seq::<Seq<char>>::empty(),
            r.warnings_spec() == Seq::<Seq<char>>::empty(),
    {
        Resource::new(Uri::new())
    }
}

/// A set of resources.
#[derive(Debug)]
pub struct ResourceSet<O> {
    resources: Vec<Resource<O>>,
}

impl<O> ResourceSet<O> {
    /// The resources, in the order they were created.
    pub closed spec fn resources_spec(&self) -> Seq<Resource<O>> {
        self.resources@
    }

    /// An empty set.
    pub fn new() -> (r: Self)
        ensures
            r.resources_spec() == Seq::<Resource<O>>::empty(),
    {
        ResourceSet { resources: Vec::new() }
    }

    /// Creates an empty resource at `uri`, adds it to the set, and hands it out.
    pub fn create_resource(&mut self, uri: Uri) -> (r: &mut Resource<O>)
        ensures
            r.uri_spec() == uri@,
            r.contents_spec() == Seq::<O>::empty(),
            !r.loaded_spec(),
            !r.modified_spec(),
            final(self).resources_spec() == old(self).resources_spec().push(*final(r)),
    {
        let res = Resource::new(uri);
        self.resources.push(res);
        let i = self.resources.len() - 1;
        &mut self.resources[i]
    }

    /// The resources.
    pub fn resources(&self) -> (r: &[Resource<O>])
        ensures
            r@ == self.resources_spec(),
    {
        self.resources.as_slice()
    }

    /// The first resource whose URI is `uri`, if any.
    pub fn get_resource(&self, uri: &Uri) -> (r: Option<&Resource<O>>)
        ensures
            match r {
                Some(res) => exists|i: int|
                    0 <= i < self.resources_spec().len() && *res == self.resources_spec()[i]
                        && res.uri_spec() == uri@ && forall|j: int|
                        0 <= j < i ==> #[trigger] self.resources_spec()[j].uri_spec() != uri@,
                None => forall|i: int|
                    0 <= i < self.resources_spec().len()
                        ==> #[trigger] self.resources_spec()[i].uri_spec() != uri@,
            },
    {
        let n = self.resources.len();
        let mut i: usize = 0;
        while i < n
            invariant
                n == self.resources@.len(),
                i <= n,
                forall|j: int| 0 <= j < i ==> #[trigger] self.resources@[j].uri_spec() != uri@,
            decreases n - i,
        {
            if self.resources[i].uri.same_as(uri) {
                let found = &self.resources[i];
                assert(*found == self.resources_spec()[i as int] && found.uri_spec() == uri@);
                return Some(found);
            }
            i += 1;
        }
        None
    }
}

impl<O> Default for ResourceSet<O> {
    fn default() -> (r: Self)
        ensures
            r.resources_spec() == Seq::<Resource<O>>::empty(),
    {
        ResourceSet::new()
    }
}

} // verus!
