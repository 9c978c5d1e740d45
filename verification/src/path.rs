//! A file-system path as the library reads it: the sequence of its components.

use vstd::prelude::*;
use crate::text::{join_seqs, string_chars, push_lit, push_chars, to_vec};

verus! {

/// A Windows path prefix in the form std's `Prefix` parses it into.
#[derive(Debug, Clone, PartialEq, Eq, Hash)]
pub enum PrefixKind {
    /// `\\?\prefix`
    Verbatim(String),
    /// `\\?\UNC\server\share`
    VerbatimUNC(String, String),
    /// `\\?\C:`, with the drive letter
    VerbatimDisk(u8),
    /// `\\.\device`
    DeviceNS(String),
    /// `\\server\share`
    UNC(String, String),
    /// `C:`, with the drive letter
    Disk(u8),
}

/// One component of a path, as std's `Path::components` yields it.
#[derive(Debug, Clone, PartialEq, Eq, Hash)]
pub enum PathPart {
    /// A Windows prefix such as `C:`: its text as written, and its parsed form.
    Prefix(String, PrefixKind),
    /// The root directory.
    Root,
    /// A leading `.`.
    CurrentDir,
    /// A `..`.
    ParentDir,
    /// An ordinary file or directory name.
    Name(String),
}

/// A path given by its components.
#[derive(Debug, Clone, PartialEq, Eq, Hash)]
pub struct MediaPath {
    pub parts: Vec<PathPart>,
}

/// A path component as a mathematical value.
pub enum PrefixV {
    Verbatim(Seq<char>),
    VerbatimUNC(Seq<char>, Seq<char>),
    VerbatimDisk(u8),
    DeviceNS(Seq<char>),
    UNC(Seq<char>, Seq<char>),
    Disk(u8),
}

impl View for PrefixKind {
    type V = PrefixV;

    open spec fn view(&self) -> PrefixV {
        match self {
            PrefixKind::Verbatim(s) => PrefixV::Verbatim(s@),
            PrefixKind::VerbatimUNC(a, b) => PrefixV::VerbatimUNC(a@, b@),
            PrefixKind::VerbatimDisk(d) => PrefixV::VerbatimDisk(*d),
            PrefixKind::DeviceNS(s) => PrefixV::DeviceNS(s@),
            PrefixKind::UNC(a, b) => PrefixV::UNC(a@, b@),
            PrefixKind::Disk(d) => PrefixV::Disk(*d),
        }
    }
}

pub enum ComponentV {
    /// The prefix's text as written, and its parsed form.
    Prefix(Seq<char>, PrefixV),
    Root,
    CurrentDir,
    ParentDir,
    Name(Seq<char>),
}

impl View for PathPart {
    type V = ComponentV;

    open spec fn view(&self) -> ComponentV {
        match self {
            PathPart::Prefix(s, k) => ComponentV::Prefix(s@, k@),
            PathPart::Root => ComponentV::Root,
            PathPart::CurrentDir => ComponentV::CurrentDir,
            PathPart::ParentDir => ComponentV::ParentDir,
            PathPart::Name(s) => ComponentV::Name(s@),
        }
    }
}

impl View for MediaPath {
    type V = Seq<ComponentV>;

    open spec fn view(&self) -> Seq<ComponentV> {
        Seq::new(self.parts@.len(), |i: int| self.parts@[i]@)
    }
}

/// The text of a component (the root reads as `/`).
pub open spec fn component_full_text(c: ComponentV) -> Seq<char> {
    match c {
        ComponentV::Prefix(s, _) => s,
        ComponentV::Root => seq!['/'],
        ComponentV::CurrentDir => seq!['.'],
        ComponentV::ParentDir => seq!['.', '.'],
        ComponentV::Name(s) => s,
    }
}

/// The components' texts joined with `sep`.
pub open spec fn view_text(v: Seq<ComponentV>, sep: Seq<char>) -> Seq<char> {
    join_seqs(Seq::new(v.len(), |i: int| component_full_text(v[i])), sep)
}

/// Whether text `a` sorts strictly before text `b`, character by character;
/// a proper prefix sorts first.
pub open spec fn text_lt(a: Seq<char>, b: Seq<char>) -> bool
    decreases a.len(),
{
    if b.len() == 0 {
        false
    } else if a.len() == 0 {
        true
    } else if a[0] < b[0] {
        true
    } else if b[0] < a[0] {
        false
    } else {
        text_lt(a.drop_first(), b.drop_first())
    }
}

/// The rank of a component's kind, in the order std's `Component` declares them.
pub open spec fn component_rank(c: ComponentV) -> int {
    match c {
        ComponentV::Prefix(..) => 0,
        ComponentV::Root => 1,
        ComponentV::CurrentDir => 2,
        ComponentV::ParentDir => 3,
        ComponentV::Name(_) => 4,
    }
}

/// The text a component carries, empty for those that carry none.
pub open spec fn component_text(c: ComponentV) -> Seq<char> {
    match c {
        ComponentV::Prefix(s, _) => s,
        ComponentV::Name(s) => s,
        _ => Seq::empty(),
    }
}

/// The rank of a prefix's kind, in the order std's `Prefix` declares them.
pub open spec fn prefix_rank(p: PrefixV) -> int {
    match p {
        PrefixV::Verbatim(_) => 0,
        PrefixV::VerbatimUNC(..) => 1,
        PrefixV::VerbatimDisk(_) => 2,
        PrefixV::DeviceNS(_) => 3,
        PrefixV::UNC(..) => 4,
        PrefixV::Disk(_) => 5,
    }
}

/// Whether text pair `(a1, a2)` sorts strictly before `(b1, b2)`.
pub open spec fn pair_lt(a1: Seq<char>, a2: Seq<char>, b1: Seq<char>, b2: Seq<char>) -> bool {
    text_lt(a1, b1) || (a1 == b1 && text_lt(a2, b2))
}

/// Whether prefix `a` sorts strictly before prefix `b`, as std orders parsed
/// prefixes: by kind, then by the kind's fields.
pub open spec fn prefix_lt(a: PrefixV, b: PrefixV) -> bool {
    if prefix_rank(a) != prefix_rank(b) {
        prefix_rank(a) < prefix_rank(b)
    } else {
        match (a, b) {
            (PrefixV::Verbatim(x), PrefixV::Verbatim(y)) => text_lt(x, y),
            (PrefixV::VerbatimUNC(x1, x2), PrefixV::VerbatimUNC(y1, y2)) => pair_lt(x1, x2, y1, y2),
            (PrefixV::VerbatimDisk(x), PrefixV::VerbatimDisk(y)) => x < y,
            (PrefixV::DeviceNS(x), PrefixV::DeviceNS(y)) => text_lt(x, y),
            (PrefixV::UNC(x1, x2), PrefixV::UNC(y1, y2)) => pair_lt(x1, x2, y1, y2),
            (PrefixV::Disk(x), PrefixV::Disk(y)) => x < y,
            _ => false,
        }
    }
}

/// Whether component `a` sorts strictly before component `b`: by kind, then
/// prefixes by their parsed form and names by their text (std's order).
pub open spec fn component_lt(a: ComponentV, b: ComponentV) -> bool {
    if component_rank(a) != component_rank(b) {
        component_rank(a) < component_rank(b)
    } else {
        match (a, b) {
            (ComponentV::Prefix(_, x), ComponentV::Prefix(_, y)) => prefix_lt(x, y),
            (ComponentV::Name(x), ComponentV::Name(y)) => text_lt(x, y),
            _ => false,
        }
    }
}

/// Whether two components are the same as std compares them: prefixes by
/// their parsed form (so `c:` and `C:` are one), the others exactly.
pub open spec fn same_component(a: ComponentV, b: ComponentV) -> bool {
    match (a, b) {
        (ComponentV::Prefix(_, x), ComponentV::Prefix(_, y)) => x == y,
        _ => a == b,
    }
}

/// Whether two paths are the same as std compares them: component by component.
pub open spec fn same_path(a: Seq<ComponentV>, b: Seq<ComponentV>) -> bool {
    a.len() == b.len() && forall|i: int| 0 <= i < a.len() ==> same_component(#[trigger] a[i], b[i])
}

/// Optional paths compared as std compares paths.
pub open spec fn same_opt_path(a: Option<Seq<ComponentV>>, b: Option<Seq<ComponentV>>) -> bool {
    match (a, b) {
        (Some(x), Some(y)) => same_path(x, y),
        (None, None) => true,
        _ => false,
    }
}

/// Whether path `a` sorts strictly before path `b`: component by component,
/// a proper prefix first (std's order on paths).
pub open spec fn path_lt(a: Seq<ComponentV>, b: Seq<ComponentV>) -> bool
    decreases a.len(),
{
    if b.len() == 0 {
        false
    } else if a.len() == 0 {
        true
    } else if component_lt(a[0], b[0]) {
        true
    } else if component_lt(b[0], a[0]) {
        false
    } else {
        path_lt(a.drop_first(), b.drop_first())
    }
}

/// The text of one component (the root reads as `/`).
pub open spec fn part_text(p: PathPart) -> Seq<char> {
    match p {
        PathPart::Prefix(s, _) => s@,
        PathPart::Root => seq!['/'],
        PathPart::CurrentDir => seq!['.'],
        PathPart::ParentDir => seq!['.', '.'],
        PathPart::Name(s) => s@,
    }
}

pub open spec fn parts_texts(parts: Seq<PathPart>) -> Seq<Seq<char>> {
    Seq::new(parts.len(), |i: int| part_text(parts[i]))
}

/// The components' texts joined with `sep`.
pub open spec fn path_text(parts: Seq<PathPart>, sep: Seq<char>) -> Seq<char> {
    join_seqs(parts_texts(parts), sep)
}

/// The file name: the last component when it is an ordinary name.
pub open spec fn file_name_spec(parts: Seq<PathPart>) -> Option<Seq<char>> {
    if parts.len() > 0 && parts.last() is Name {
        Some(part_text(parts.last()))
    } else {
        None
    }
}

/// The index of the last `.` in `s`.
pub open spec fn last_dot(s: Seq<char>) -> Option<int>
    decreases s.len(),
{
    if s.len() == 0 {
        None
    } else if s.last() == '.' {
        Some(s.len() - 1)
    } else {
        last_dot(s.drop_last())
    }
}

/// The stem of a file name: everything before the last `.`, unless that dot
/// is the first character or there is none.
pub open spec fn stem_of(name: Seq<char>) -> Seq<char> {
    match last_dot(name) {
        Some(i) => if i > 0 { name.subrange(0, i) } else { name },
        None => name,
    }
}

/// The extension of a file name: everything after the last `.`, when that dot
/// is not the first character.
pub open spec fn extension_of(name: Seq<char>) -> Option<Seq<char>> {
    match last_dot(name) {
        Some(i) => if i > 0 { Some(name.subrange(i + 1, name.len() as int)) } else { None },
        None => None,
    }
}

pub open spec fn file_stem_spec(parts: Seq<PathPart>) -> Option<Seq<char>> {
    match file_name_spec(parts) {
        Some(n) => Some(stem_of(n)),
        None => None,
    }
}

pub open spec fn extension_spec(parts: Seq<PathPart>) -> Option<Seq<char>> {
    match file_name_spec(parts) {
        Some(n) => extension_of(n),
        None => None,
    }
}

/// The parent: all but the last component, when the last one is a name, `.` or `..`.
pub open spec fn parent_spec(parts: Seq<PathPart>) -> Option<Seq<PathPart>> {
    if parts.len() > 0 && !(parts.last() is Root) && !(parts.last() is Prefix) {
        Some(parts.drop_last())
    } else {
        None
    }
}

pub fn part_chars(p: &PathPart) -> (r: Vec<char>)
    ensures
        r@ == part_text(*p),
{
    match p {
        PathPart::Prefix(s, _) => string_chars(s),
        PathPart::Root => {
            let mut v: Vec<char> = Vec::new();
            v.push('/');
            assert(v@ =~= seq!['/']);
            v
        },
        PathPart::CurrentDir => {
            let mut v: Vec<char> = Vec::new();
            v.push('.');
            assert(v@ =~= seq!['.']);
            v
        },
        PathPart::ParentDir => {
            let mut v: Vec<char> = Vec::new();
            v.push('.');
            v.push('.');
            assert(v@ =~= seq!['.', '.']);
            v
        },
        PathPart::Name(s) => string_chars(s),
    }
}

impl MediaPath {
    /// The components' texts joined with `sep`.
    pub fn joined_text(&self, sep: &str) -> (r: Vec<char>)
        ensures
            r@ == path_text(self.parts@, sep@),
    {
        let mut out: Vec<char> = Vec::new();
        let mut i: usize = 0;
        while i < self.parts.len()
            invariant
                i <= self.parts@.len(),
                out@ == path_text(self.parts@.subrange(0, i as int), sep@),
            decreases self.parts@.len() - i,
        {
            let t = part_chars(&self.parts[i]);
            let ghost before = out@;
            if i > 0 {
                push_lit(&mut out, sep);
            }
            push_chars(&mut out, t.as_slice());
            proof {
                let ps = self.parts@.subrange(0, i + 1);
                assert(ps.drop_last() =~= self.parts@.subrange(0, i as int));
                assert(parts_texts(ps).drop_last() =~= parts_texts(self.parts@.subrange(0, i as int)));
                if i == 0 {
                    assert(parts_texts(ps).len() == 1);
                    assert(out@ =~= parts_texts(ps)[0]);
                }
            }
            i += 1;
        }
        assert(self.parts@.subrange(0, self.parts@.len() as int) =~= self.parts@);
        out
    }

    /// The file name, when the last component is an ordinary name.
    pub fn file_name_chars(&self) -> (r: Option<Vec<char>>)
        ensures
            match r {
                Some(v) => file_name_spec(self.parts@) == Some(v@),
                None => file_name_spec(self.parts@) is None,
            },
    {
        let n = self.parts.len();
        if n == 0 {
            return None;
        }
        match &self.parts[n - 1] {
            PathPart::Name(s) => Some(string_chars(s)),
            _ => None,
        }
    }

    /// The file stem (std's `Path::file_stem`).
    pub fn file_stem_chars(&self) -> (r: Option<Vec<char>>)
        ensures
            match r {
                Some(v) => file_stem_spec(self.parts@) == Some(v@),
                None => file_stem_spec(self.parts@) is None,
            },
    {
        match self.file_name_chars() {
            Some(name) => {
                let (stem, _ext) = split_at_last_dot(name.as_slice());
                Some(stem)
            },
            None => None,
        }
    }

    /// The extension (std's `Path::extension`).
    pub fn extension_chars(&self) -> (r: Option<Vec<char>>)
        ensures
            match r {
                Some(v) => extension_spec(self.parts@) == Some(v@),
                None => extension_spec(self.parts@) is None,
            },
    {
        match self.file_name_chars() {
            Some(name) => {
                let (_stem, ext) = split_at_last_dot(name.as_slice());
                ext
            },
            None => None,
        }
    }

    /// The parent path (std's `Path::parent`).
    pub fn parent(&self) -> (r: Option<MediaPath>)
        ensures
            match r {
                Some(p) => parent_spec(self.parts@) == Some(p.parts@),
                None => parent_spec(self.parts@) is None,
            },
    {
        let n = self.parts.len();
        if n == 0 {
            return None;
        }
        match &self.parts[n - 1] {
            PathPart::Root => None,
            PathPart::Prefix(..) => None,
            _ => {
                let mut parts: Vec<PathPart> = Vec::new();
                let mut i: usize = 0;
                while i < n - 1
                    invariant
                        n == self.parts@.len(),
                        i <= n - 1,
                        parts@ =~= self.parts@.subrange(0, i as int),
                    decreases n - 1 - i,
                {
                    parts.push(copy_part(&self.parts[i]));
                    i += 1;
                }
                assert(parts@ =~= self.parts@.drop_last());
                Some(MediaPath { parts })
            },
        }
    }
}

pub fn copy_part(p: &PathPart) -> (r: PathPart)
    ensures
        r == *p,
{
    match p {
        PathPart::Prefix(s, k) => PathPart::Prefix(s.clone(), copy_prefix_kind(k)),
        PathPart::Root => PathPart::Root,
        PathPart::CurrentDir => PathPart::CurrentDir,
        PathPart::ParentDir => PathPart::ParentDir,
        PathPart::Name(s) => PathPart::Name(s.clone()),
    }
}

pub fn copy_path(p: &MediaPath) -> (r: MediaPath)
    ensures
        r.parts@ == p.parts@,
        r@ == p@,
{
    let mut parts: Vec<PathPart> = Vec::new();
    let mut i: usize = 0;
    while i < p.parts.len()
        invariant
            i <= p.parts@.len(),
            parts@ =~= p.parts@.subrange(0, i as int),
        decreases p.parts@.len() - i,
    {
        parts.push(copy_part(&p.parts[i]));
        i += 1;
    }
    assert(parts@ =~= p.parts@);
    MediaPath { parts }
}

/// Splits a file name into its stem and extension.
pub fn split_at_last_dot(name: &[char]) -> (r: (Vec<char>, Option<Vec<char>>))
    ensures
        r.0@ == stem_of(name@),
        match r.1 {
            Some(e) => extension_of(name@) == Some(e@),
            None => extension_of(name@) is None,
        },
{
    let mut i: usize = name.len();
    while i > 0
        invariant
            i <= name@.len(),
            forall|j: int| i <= j < name@.len() ==> name@[j] != '.',
        ensures
            i <= name@.len(),
            forall|j: int| i <= j < name@.len() ==> name@[j] != '.',
            i == 0 || name@[i - 1] == '.',
        decreases i,
    {
        if name[i - 1] == '.' {
            break;
        }
        i -= 1;
    }
    // `i` is one past the last dot, or 0 when there is none.
    if i <= 1 {
        proof {
            if i == 1 {
                assert(last_dot(name@) == Some(0int)) by {
                    lemma_last_dot_unique(name@, 0);
                }
            } else {
                lemma_last_dot_none(name@);
            }
        }
        (to_vec(name), None)
    } else {
        let dot = i - 1;
        proof {
            lemma_last_dot_unique(name@, dot as int);
        }
        let mut stem: Vec<char> = Vec::new();
        let mut k: usize = 0;
        while k < dot
            invariant
                dot < name@.len(),
                k <= dot,
                stem@ =~= name@.subrange(0, k as int),
            decreases dot - k,
        {
            stem.push(name[k]);
            k += 1;
        }
        let mut ext: Vec<char> = Vec::new();
        let mut m: usize = dot + 1;
        while m < name.len()
            invariant
                dot < name@.len(),
                dot + 1 <= m <= name@.len(),
                ext@ =~= name@.subrange(dot + 1, m as int),
            decreases name@.len() - m,
        {
            ext.push(name[m]);
            m += 1;
        }
        (stem, Some(ext))
    }
}

proof fn lemma_last_dot_unique(s: Seq<char>, i: int)
    requires
        0 <= i < s.len(),
        s[i] == '.',
        forall|j: int| i < j < s.len() ==> s[j] != '.',
    ensures
        last_dot(s) == Some(i),
    decreases s.len(),
{
    if s.len() - 1 != i {
        lemma_last_dot_unique(s.drop_last(), i);
    }
}

proof fn lemma_last_dot_none(s: Seq<char>)
    requires
        forall|j: int| 0 <= j < s.len() ==> s[j] != '.',
    ensures
        last_dot(s) is None,
    decreases s.len(),
{
    if s.len() > 0 {
        lemma_last_dot_none(s.drop_last());
    }
}

proof fn lemma_text_lt_skip(a: Seq<char>, b: Seq<char>, i: int)
    requires
        0 <= i < a.len(),
        i < b.len(),
        a[i] == b[i],
    ensures
        text_lt(a.skip(i), b.skip(i)) == text_lt(a.skip(i + 1), b.skip(i + 1)),
{
    assert(a.skip(i).drop_first() =~= a.skip(i + 1));
    assert(b.skip(i).drop_first() =~= b.skip(i + 1));
}

/// Whether text `a` sorts strictly before text `b`.
pub fn text_less(a: &[char], b: &[char]) -> (r: bool)
    ensures
        r == text_lt(a@, b@),
{
    let mut i: usize = 0;
    assert(a@.skip(0) =~= a@);
    assert(b@.skip(0) =~= b@);
    while i < a.len() && i < b.len()
        invariant
            i <= a@.len(),
            i <= b@.len(),
            text_lt(a@, b@) == text_lt(a@.skip(i as int), b@.skip(i as int)),
        decreases a@.len() - i,
    {
        assert(a@.skip(i as int)[0] == a@[i as int]);
        assert(b@.skip(i as int)[0] == b@[i as int]);
        if a[i] < b[i] {
            return true;
        }
        if b[i] < a[i] {
            return false;
        }
        proof {
            lemma_text_lt_skip(a@, b@, i as int);
        }
        i += 1;
    }
    i < b.len() && i == a.len()
}

fn component_rank_of(p: &PathPart) -> (r: u8)
    ensures
        r as int == component_rank(p@),
{
    match p {
        PathPart::Prefix(..) => 0,
        PathPart::Root => 1,
        PathPart::CurrentDir => 2,
        PathPart::ParentDir => 3,
        PathPart::Name(_) => 4,
    }
}

fn prefix_rank_of(p: &PrefixKind) -> (r: u8)
    ensures
        r as int == prefix_rank(p@),
{
    match p {
        PrefixKind::Verbatim(_) => 0,
        PrefixKind::VerbatimUNC(..) => 1,
        PrefixKind::VerbatimDisk(_) => 2,
        PrefixKind::DeviceNS(_) => 3,
        PrefixKind::UNC(..) => 4,
        PrefixKind::Disk(_) => 5,
    }
}

fn string_less(a: &String, b: &String) -> (r: bool)
    ensures
        r == text_lt(a@, b@),
{
    let x = string_chars(a);
    let y = string_chars(b);
    text_less(x.as_slice(), y.as_slice())
}

fn string_pair_less(a1: &String, a2: &String, b1: &String, b2: &String) -> (r: bool)
    ensures
        r == pair_lt(a1@, a2@, b1@, b2@),
{
    if string_less(a1, b1) {
        return true;
    }
    if *a1 != *b1 {
        return false;
    }
    string_less(a2, b2)
}

/// Whether prefix `a` sorts strictly before prefix `b`.
pub fn prefix_less(a: &PrefixKind, b: &PrefixKind) -> (r: bool)
    ensures
        r == prefix_lt(a@, b@),
{
    let ra = prefix_rank_of(a);
    let rb = prefix_rank_of(b);
    if ra != rb {
        return ra < rb;
    }
    match (a, b) {
        (PrefixKind::Verbatim(x), PrefixKind::Verbatim(y)) => string_less(x, y),
        (PrefixKind::VerbatimUNC(x1, x2), PrefixKind::VerbatimUNC(y1, y2)) => string_pair_less(x1, x2, y1, y2),
        (PrefixKind::VerbatimDisk(x), PrefixKind::VerbatimDisk(y)) => *x < *y,
        (PrefixKind::DeviceNS(x), PrefixKind::DeviceNS(y)) => string_less(x, y),
        (PrefixKind::UNC(x1, x2), PrefixKind::UNC(y1, y2)) => string_pair_less(x1, x2, y1, y2),
        (PrefixKind::Disk(x), PrefixKind::Disk(y)) => *x < *y,
        _ => false,
    }
}

/// Whether two parsed prefixes are equal.
pub fn prefix_equal(a: &PrefixKind, b: &PrefixKind) -> (r: bool)
    ensures
        r == (a@ == b@),
{
    match (a, b) {
        (PrefixKind::Verbatim(x), PrefixKind::Verbatim(y)) => *x == *y,
        (PrefixKind::VerbatimUNC(x1, x2), PrefixKind::VerbatimUNC(y1, y2)) => *x1 == *y1 && *x2 == *y2,
        (PrefixKind::VerbatimDisk(x), PrefixKind::VerbatimDisk(y)) => *x == *y,
        (PrefixKind::DeviceNS(x), PrefixKind::DeviceNS(y)) => *x == *y,
        (PrefixKind::UNC(x1, x2), PrefixKind::UNC(y1, y2)) => *x1 == *y1 && *x2 == *y2,
        (PrefixKind::Disk(x), PrefixKind::Disk(y)) => *x == *y,
        _ => false,
    }
}

pub fn copy_prefix_kind(k: &PrefixKind) -> (r: PrefixKind)
    ensures
        r == *k,
{
    match k {
        PrefixKind::Verbatim(s) => PrefixKind::Verbatim(s.clone()),
        PrefixKind::VerbatimUNC(a, b) => PrefixKind::VerbatimUNC(a.clone(), b.clone()),
        PrefixKind::VerbatimDisk(d) => PrefixKind::VerbatimDisk(*d),
        PrefixKind::DeviceNS(s) => PrefixKind::DeviceNS(s.clone()),
        PrefixKind::UNC(a, b) => PrefixKind::UNC(a.clone(), b.clone()),
        PrefixKind::Disk(d) => PrefixKind::Disk(*d),
    }
}

/// Whether component `a` sorts strictly before component `b`.
pub fn component_less(a: &PathPart, b: &PathPart) -> (r: bool)
    ensures
        r == component_lt(a@, b@),
{
    let ra = component_rank_of(a);
    let rb = component_rank_of(b);
    if ra != rb {
        return ra < rb;
    }
    match (a, b) {
        (PathPart::Prefix(_, x), PathPart::Prefix(_, y)) => prefix_less(x, y),
        (PathPart::Name(x), PathPart::Name(y)) => string_less(x, y),
        _ => false,
    }
}

proof fn lemma_path_lt_skip(a: Seq<ComponentV>, b: Seq<ComponentV>, i: int)
    requires
        0 <= i < a.len(),
        i < b.len(),
        !component_lt(a[i], b[i]),
        !component_lt(b[i], a[i]),
    ensures
        path_lt(a.skip(i), b.skip(i)) == path_lt(a.skip(i + 1), b.skip(i + 1)),
{
    assert(a.skip(i).drop_first() =~= a.skip(i + 1));
    assert(b.skip(i).drop_first() =~= b.skip(i + 1));
}

/// Whether path `a` sorts strictly before path `b`.
pub fn path_less(a: &MediaPath, b: &MediaPath) -> (r: bool)
    ensures
        r == path_lt(a@, b@),
{
    let ghost av = a@;
    let ghost bv = b@;
    let mut i: usize = 0;
    assert(av.skip(0) =~= av);
    assert(bv.skip(0) =~= bv);
    while i < a.parts.len() && i < b.parts.len()
        invariant
            av == a@,
            bv == b@,
            i <= av.len(),
            i <= bv.len(),
            path_lt(av, bv) == path_lt(av.skip(i as int), bv.skip(i as int)),
        decreases av.len() - i,
    {
        assert(av.skip(i as int)[0] == a.parts@[i as int]@);
        assert(bv.skip(i as int)[0] == b.parts@[i as int]@);
        if component_less(&a.parts[i], &b.parts[i]) {
            return true;
        }
        if component_less(&b.parts[i], &a.parts[i]) {
            return false;
        }
        proof {
            lemma_path_lt_skip(av, bv, i as int);
        }
        i += 1;
    }
    i < b.parts.len() && i == a.parts.len()
}

/// A path's text is a function of its view.
pub proof fn lemma_path_text_view(p: MediaPath, sep: Seq<char>)
    ensures
        path_text(p.parts@, sep) == view_text(p@, sep),
{
    assert(parts_texts(p.parts@) =~= Seq::new(p@.len(), |i: int| component_full_text(p@[i])));
}

impl MediaPath {
    /// The path with no components.
    pub fn empty() -> (r: MediaPath)
        ensures
            r@ == Seq::<ComponentV>::empty(),
    {
        let r = MediaPath { parts: Vec::new() };
        assert(r@ =~= Seq::<ComponentV>::empty());
        r
    }

    /// The path with `name` appended as one more component.
    pub fn join_name(&self, name: &[char]) -> (r: MediaPath)
        ensures
            r@ == self@.push(ComponentV::Name(name@)),
    {
        let mut r = copy_path(self);
        let n = crate::text::chars_to_string(name);
        r.parts.push(PathPart::Name(n));
        assert(r@ =~= self@.push(ComponentV::Name(name@)));
        r
    }
}

/// Whether two components are the same, as std compares them.
pub fn component_equal(a: &PathPart, b: &PathPart) -> (r: bool)
    ensures
        r == same_component(a@, b@),
{
    match (a, b) {
        (PathPart::Prefix(_, x), PathPart::Prefix(_, y)) => prefix_equal(x, y),
        (PathPart::Root, PathPart::Root) => true,
        (PathPart::CurrentDir, PathPart::CurrentDir) => true,
        (PathPart::ParentDir, PathPart::ParentDir) => true,
        (PathPart::Name(x), PathPart::Name(y)) => *x == *y,
        _ => false,
    }
}

/// Whether the components of `a` are the first ones of `b`, as std compares them.
pub open spec fn is_path_prefix(a: Seq<ComponentV>, b: Seq<ComponentV>) -> bool {
    a.len() <= b.len() && same_path(a, b.subrange(0, a.len() as int))
}

fn prefix_matches(a: &MediaPath, b: &MediaPath) -> (r: bool)
    ensures
        r == is_path_prefix(a@, b@),
{
    if a.parts.len() > b.parts.len() {
        return false;
    }
    let mut i: usize = 0;
    while i < a.parts.len()
        invariant
            a@.len() <= b@.len(),
            i <= a@.len(),
            forall|k: int| 0 <= k < i ==> same_component(#[trigger] a@[k], b@[k]),
        decreases a@.len() - i,
    {
        if !component_equal(&a.parts[i], &b.parts[i]) {
            assert(b@.subrange(0, a@.len() as int)[i as int] == b@[i as int]);
            assert(!same_component(a@[i as int], b@.subrange(0, a@.len() as int)[i as int]));
            return false;
        }
        i += 1;
    }
    assert forall|k: int| 0 <= k < a@.len() implies same_component(#[trigger] a@[k], b@.subrange(0, a@.len() as int)[k]) by {
        assert(b@.subrange(0, a@.len() as int)[k] == b@[k]);
    }
    true
}

/// Whether two paths are the same, as std compares them: component by
/// component, prefixes by their parsed form.
pub fn path_equal(a: &MediaPath, b: &MediaPath) -> (r: bool)
    ensures
        r == same_path(a@, b@),
{
    if a.parts.len() != b.parts.len() {
        return false;
    }
    let r = prefix_matches(a, b);
    assert(b@.subrange(0, a@.len() as int) =~= b@);
    r
}

/// Every path is the same as itself.
pub proof fn lemma_same_path_refl(a: Seq<ComponentV>)
    ensures
        same_path(a, a),
{
}

/// The components of `path` after those of `base`, when `base` is a prefix of it
/// (std's `Path::strip_prefix`).
pub open spec fn strip_prefix_spec(base: Seq<ComponentV>, path: Seq<ComponentV>) -> Option<Seq<ComponentV>> {
    if is_path_prefix(base, path) {
        Some(path.subrange(base.len() as int, path.len() as int))
    } else {
        None
    }
}

/// The components of `path` after those of `base`, when `base` is a prefix of it.
pub fn strip_prefix(base: &MediaPath, path: &MediaPath) -> (r: Option<MediaPath>)
    ensures
        match r {
            Some(q) => strip_prefix_spec(base@, path@) == Some(q@),
            None => strip_prefix_spec(base@, path@) is None,
        },
{
    if !prefix_matches(base, path) {
        return None;
    }
    let mut parts: Vec<PathPart> = Vec::new();
    let mut i: usize = base.parts.len();
    while i < path.parts.len()
        invariant
            base@.len() <= i <= path@.len(),
            parts@.len() == i - base@.len(),
            forall|k: int| 0 <= k < parts@.len() ==> (#[trigger] parts@[k])@ == path@[base@.len() + k],
        decreases path@.len() - i,
    {
        parts.push(copy_part(&path.parts[i]));
        i += 1;
    }
    let r = MediaPath { parts };
    assert(r@ =~= path@.subrange(base@.len() as int, path@.len() as int));
    Some(r)
}

} // verus!
