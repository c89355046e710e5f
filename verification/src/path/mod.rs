//! Paths of the host that the library runs on.
//!
//! What the components of a path are depends on the host: a `\` separates them on Windows and
//! is an ordinary character on Unix, and only Windows knows drives. A [`NativePath`] therefore
//! holds the separator of its host beside its text. Where that is `/`, the rules are written
//! out in [`slash`]; elsewhere `std` answers, and the contracts give its answers by name.

pub mod slash;

use crate::text;
use vstd::prelude::*;

verus! {

/// A path on this host.
///
/// The separator is always the host's: it comes from [`NativePath::new`] or from another path.
#[derive(Debug)]
pub struct NativePath {
    separator: char,
    text: String,
}

/// What a [`NativePath`] stands for.
#[verifier::ext_equal]
pub struct PathModel {
    pub separator: char,
    pub text: Seq<char>,
}

impl View for NativePath {
    type V = PathModel;

    closed spec fn view(&self) -> PathModel {
        PathModel { separator: self.separator, text: self.text@ }
    }
}

/// What two paths share exactly when they are the same path, in whatever spelling: on a host
/// with `/`, the components; elsewhere, the class that `std` puts them in.
pub enum PathKey {
    Components(Seq<Seq<char>>),
    Class(char, nat),
}

impl PathModel {
    /// Another path on the same host.
    pub open spec fn with_text(self, text: Seq<char>) -> PathModel {
        PathModel { text, ..self }
    }

    /// The last component, if it is a name.
    pub open spec fn file_name(self) -> Option<Seq<char>> {
        if self.separator == '/' {
            slash::file_name_of(self.text)
        } else {
            host_file_name(self.separator, self.text)
        }
    }

    /// The path without its last component, if it has one.
    pub open spec fn parent(self) -> Option<PathModel> {
        match if self.separator == '/' {
            slash::parent_of(self.text)
        } else {
            host_parent(self.separator, self.text)
        } {
            Some(text) => Some(self.with_text(text)),
            None => None,
        }
    }

    /// `name` inside this directory.
    pub open spec fn joined(self, name: Seq<char>) -> PathModel {
        self.with_text(
            if self.separator == '/' {
                slash::joined(self.text, name)
            } else {
                host_join(self.separator, self.text, name)
            },
        )
    }

    /// The path in escaped form.
    pub open spec fn shown(self) -> Seq<char> {
        host_debug_form(self.separator, self.text)
    }

    /// What all spellings of the path share.
    pub open spec fn key(self) -> PathKey {
        if self.separator == '/' {
            PathKey::Components(slash::components(self.text))
        } else {
            PathKey::Class(self.separator, host_class(self.separator, self.text))
        }
    }
}

// ---------------------------------------------------------------------------
// What `std` answers
// ---------------------------------------------------------------------------

/// What `std::path::Path::file_name` gives for a path on a host with this separator.
pub uninterp spec fn host_file_name(separator: char, path: Seq<char>) -> Option<Seq<char>>;

/// What `std::path::Path::parent` gives for a path on a host with this separator.
pub uninterp spec fn host_parent(separator: char, path: Seq<char>) -> Option<Seq<char>>;

/// What `std::path::Path::join` gives for a path and a name on a host with this separator.
pub uninterp spec fn host_join(separator: char, path: Seq<char>, name: Seq<char>) -> Seq<char>;

/// The class of a path under `==` of `std::path::Path`, on a host with this separator.
pub uninterp spec fn host_class(separator: char, path: Seq<char>) -> nat;

/// What the `Debug` implementation of `std::path::Path` writes for a path on a host with this
/// separator.
pub uninterp spec fn host_debug_form(separator: char, path: Seq<char>) -> Seq<char>;

/// `std::path::MAIN_SEPARATOR`: the separator of the host. Nothing is claimed of it, since it
/// rests on the host.
#[verifier::external_body]
fn main_separator() -> char {
    std::path::MAIN_SEPARATOR
}

/// `std::path::Path::file_name`. Its rules follow from the host, and the separator in the path
/// is that of the host, so separator and text settle the result. What it is, is left unsaid.
#[verifier::external_body]
fn std_file_name(path: &NativePath) -> (r: Option<String>)
    requires
        path@.separator != '/',
    ensures
        text::maybe(r) == host_file_name(path@.separator, path@.text),
{
    std::path::Path::new(path.text.as_str()).file_name().map(|n| n.to_string_lossy().into_owned())
}

/// `std::path::Path::parent`. Its rules follow from the host, and the separator in the path is
/// that of the host, so separator and text settle the result. What it is, is left unsaid.
#[verifier::external_body]
fn std_parent(path: &NativePath) -> (r: Option<String>)
    requires
        path@.separator != '/',
    ensures
        text::maybe(r) == host_parent(path@.separator, path@.text),
{
    std::path::Path::new(path.text.as_str()).parent().map(|d| d.to_string_lossy().into_owned())
}

/// `std::path::Path::join`. Its rules follow from the host, and the separator in the path is
/// that of the host, so separator, text and name settle the result. What it is, is left unsaid.
#[verifier::external_body]
fn std_join(path: &NativePath, name: &str) -> (r: String)
    requires
        path@.separator != '/',
    ensures
        r@ == host_join(path@.separator, path@.text, name@),
{
    std::path::Path::new(path.text.as_str()).join(name).to_string_lossy().into_owned()
}

/// `==` of `std::path::Path`. It is an equivalence, as `Eq` asks, so each path of a host is in
/// one class, and two are equal exactly when their classes are the same. Which paths share a
/// class is left unsaid.
#[verifier::external_body]
fn std_same(a: &NativePath, b: &NativePath) -> (r: bool)
    requires
        a@.separator != '/',
        a@.separator == b@.separator,
    ensures
        r == (host_class(a@.separator, a@.text) == host_class(b@.separator, b@.text)),
{
    std::path::Path::new(a.text.as_str()) == std::path::Path::new(b.text.as_str())
}

/// `format!("{:?}", path)` of a `std::path::Path`: the path in double quotes, with the
/// characters escaped that would not show. No ASCII control character comes out of it
/// unescaped. Which others are escaped is left unsaid.
#[verifier::external_body]
fn std_debug(path: &NativePath) -> (s: String)
    ensures
        s@ == host_debug_form(path@.separator, path@.text),
        text::control_free(s@),
{
    format!("{:?}", std::path::Path::new(path.text.as_str()))
}

// ---------------------------------------------------------------------------
// Working with paths
// ---------------------------------------------------------------------------

impl NativePath {
    /// The path on this host that is written so.
    pub fn new(text: &str) -> (r: NativePath)
        ensures
            r@.text == text@,
    {
        NativePath { separator: main_separator(), text: text.to_owned() }
    }

    /// Another path on the same host.
    pub fn with_text(&self, text: &str) -> (r: NativePath)
        ensures
            r@ == self@.with_text(text@),
    {
        NativePath { separator: self.separator, text: text.to_owned() }
    }

    /// The same path.
    pub fn copied(&self) -> (r: NativePath)
        ensures
            r@ == self@,
    {
        self.with_text(self.text.as_str())
    }

    /// How the path is written.
    pub fn as_str(&self) -> (r: &str)
        ensures
            r@ == self@.text,
    {
        self.text.as_str()
    }

    /// The last component, if it is a name.
    pub fn file_name(&self) -> (r: Option<String>)
        ensures
            text::maybe(r) == self@.file_name(),
    {
        if self.separator == '/' {
            slash::file_name(self.text.as_str())
        } else {
            std_file_name(self)
        }
    }

    /// The path without its last component, if it has one.
    pub fn parent(&self) -> (r: Option<NativePath>)
        ensures
            match r {
                Some(dir) => self@.parent() == Some(dir@),
                None => self@.parent() is None,
            },
    {
        let above = if self.separator == '/' {
            slash::parent(self.text.as_str())
        } else {
            std_parent(self)
        };
        match above {
            Some(text) => Some(self.with_text(text.as_str())),
            None => None,
        }
    }

    /// `name` inside this directory.
    pub fn join(&self, name: &str) -> (r: NativePath)
        ensures
            r@ == self@.joined(name@),
    {
        let inside = if self.separator == '/' {
            slash::join(self.text.as_str(), name)
        } else {
            std_join(self, name)
        };
        self.with_text(inside.as_str())
    }

    /// The path in escaped form, without a control character.
    pub fn shown(&self) -> (s: String)
        ensures
            s@ == self@.shown(),
            text::control_free(s@),
    {
        std_debug(self)
    }

    /// Whether it is the same path as `other`, in whatever spelling.
    pub fn same(&self, other: &NativePath) -> (r: bool)
        ensures
            r == (self@.key() == other@.key()),
    {
        if self.separator != other.separator {
            false
        } else if self.separator == '/' {
            slash::same_path(self.text.as_str(), other.text.as_str())
        } else {
            std_same(self, other)
        }
    }
}

// ---------------------------------------------------------------------------
// Laws
// ---------------------------------------------------------------------------

/// On a host with `/` two paths are the same exactly where their components are; and what is
/// derived from a path is a path on the same host.
pub proof fn paths_are_the_same_by_their_components(a: PathModel, b: PathModel, name: Seq<char>)
    ensures
        a.separator == '/' && b.separator == '/' ==> (a.key() == b.key() <==> slash::components(
            a.text,
        ) == slash::components(b.text)),
        a == b ==> a.key() == b.key(),
        a.key() == b.key() ==> a.separator == b.separator,
        a.joined(name).separator == a.separator,
        a.parent() matches Some(dir) ==> dir.separator == a.separator,
        a.separator == '/' ==> a.joined(name).text == slash::joined(a.text, name),
        a.separator == '/' ==> a.file_name() == slash::file_name_of(a.text),
        a.separator == '/' && a.parent() is Some ==> slash::parent_of(a.text) == Some(
            a.parent()->0.text,
        ),
        a.separator == '/' && a.parent() is None ==> slash::parent_of(a.text) is None,
{
}

} // verus!
