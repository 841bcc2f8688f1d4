//! The normalized target/dependency model shared by every adapter.
//!
//! A graph is a flat collection of [`Target`] records; an edge is a [`Dep`],
//! a weak reference that names another target by `(name, kind)` and is
//! resolved by scanning the collection, never by a structural link.

use vstd::prelude::*;

verus! {

/// What a target builds into: a binary, a library, or a reference to an
/// external registry package.
#[derive(Clone, Copy, Debug, PartialEq, Eq, Structural)]
pub enum TargetKind {
    Binary,
    Library,
    Crate,
}

/// A named, kind-tagged reference from one target to another. The recorded
/// version is carried along while adapters resolve it, but never takes part
/// in matching an edge to its endpoint: a dependency may be recorded before
/// the target's authoritative version is known.
#[derive(Debug, Clone)]
pub struct Dep {
    pub name: String,
    pub kind: TargetKind,
    pub version: String,
}

/// One normalized unit of buildable output with its dependency edges.
/// `height` is meaningful only after the layering engine has run; every
/// constructor starts it at zero.
#[derive(Debug, Clone)]
pub struct Target {
    pub name: String,
    pub kind: TargetKind,
    pub version: String,
    pub dependencies: Option<Vec<Dep>>,
    pub height: usize,
}

/// Mathematical image of a [`Dep`].
pub ghost struct DepModel {
    pub name: Seq<char>,
    pub kind: TargetKind,
    pub version: Seq<char>,
}

/// Mathematical image of a [`Target`].
pub ghost struct TargetModel {
    pub name: Seq<char>,
    pub kind: TargetKind,
    pub version: Seq<char>,
    pub dependencies: Option<Seq<DepModel>>,
    pub height: nat,
}

impl View for Dep {
    type V = DepModel;

    open spec fn view(&self) -> DepModel {
        DepModel { name: self.name@, kind: self.kind, version: self.version@ }
    }
}

impl DeepView for Dep {
    type V = DepModel;

    open spec fn deep_view(&self) -> DepModel {
        self@
    }
}

impl View for Target {
    type V = TargetModel;

    open spec fn view(&self) -> TargetModel {
        TargetModel {
            name: self.name@,
            kind: self.kind,
            version: self.version@,
            dependencies: self.dependencies.deep_view(),
            height: self.height as nat,
        }
    }
}

impl DeepView for Target {
    type V = TargetModel;

    open spec fn deep_view(&self) -> TargetModel {
        self@
    }
}

/// Two targets are the same node of the graph when name, kind and version
/// all agree; height and edges do not identify a node.
pub open spec fn same_node(a: TargetModel, b: TargetModel) -> bool {
    a.name == b.name && a.kind == b.kind && a.version == b.version
}

/// A dependency edge ends at a target when name and kind agree; the version
/// is deliberately left out of the match.
pub open spec fn edge_ends_at(t: TargetModel, d: DepModel) -> bool {
    t.name == d.name && t.kind == d.kind
}

/// The dependency list of a target, the empty sequence when none was ever
/// recorded.
pub open spec fn deps_of(t: TargetModel) -> Seq<DepModel> {
    match t.dependencies {
        Some(ds) => ds,
        None => Seq::empty(),
    }
}

/// The decimal digit `d` as a character.
pub open spec fn spec_digit(d: nat) -> char {
    if d == 0 {
        '0'
    } else if d == 1 {
        '1'
    } else if d == 2 {
        '2'
    } else if d == 3 {
        '3'
    } else if d == 4 {
        '4'
    } else if d == 5 {
        '5'
    } else if d == 6 {
        '6'
    } else if d == 7 {
        '7'
    } else if d == 8 {
        '8'
    } else {
        '9'
    }
}

/// `n` written out in decimal.
pub open spec fn spec_decimal(n: nat) -> Seq<char>
    decreases n,
{
    if n < 10 {
        seq![spec_digit(n)]
    } else {
        spec_decimal(n / 10) + seq![spec_digit(n % 10)]
    }
}

/// How a target kind prints: a short marker, empty for an external
/// package.
pub open spec fn spec_render_kind(k: TargetKind) -> Seq<char> {
    match k {
        TargetKind::Binary => "bin "@,
        TargetKind::Library => "lib "@,
        TargetKind::Crate => ""@,
    }
}

/// One indented dependency line of the textual dump.
pub open spec fn spec_render_dep(d: DepModel) -> Seq<char> {
    " |- "@ + spec_render_kind(d.kind) + " "@ + d.name + "\n"@
}

/// The dependency lines of the textual dump from position `i` on.
pub open spec fn spec_render_deps(ds: Seq<DepModel>, i: int) -> Seq<char>
    decreases ds.len() - i,
{
    if i < 0 || i >= ds.len() {
        Seq::empty()
    } else {
        spec_render_dep(ds[i]) + spec_render_deps(ds, i + 1)
    }
}

/// The whole textual dump of one target: a header line
/// `(height) kind name version:` and one indented line per dependency.
pub open spec fn spec_render_target(t: TargetModel) -> Seq<char> {
    "("@ + spec_decimal(t.height) + ") "@ + spec_render_kind(t.kind) + t.name + " "@ + t.version
        + (match t.dependencies {
        Some(_) => ":"@,
        None => ""@,
    }) + "\n"@ + (match t.dependencies {
        Some(ds) => spec_render_deps(ds, 0),
        None => ""@,
    })
}

/// One decimal digit as text.
fn digit_str(d: usize) -> (r: &'static str)
    requires
        d < 10,
    ensures
        r@ == seq![spec_digit(d as nat)],
{
    if d == 0 {
        proof {
            reveal_strlit("0");
            assert("0"@ =~= seq!['0']);
        }
        "0"
    } else if d == 1 {
        proof {
            reveal_strlit("1");
            assert("1"@ =~= seq!['1']);
        }
        "1"
    } else if d == 2 {
        proof {
            reveal_strlit("2");
            assert("2"@ =~= seq!['2']);
        }
        "2"
    } else if d == 3 {
        proof {
            reveal_strlit("3");
            assert("3"@ =~= seq!['3']);
        }
        "3"
    } else if d == 4 {
        proof {
            reveal_strlit("4");
            assert("4"@ =~= seq!['4']);
        }
        "4"
    } else if d == 5 {
        proof {
            reveal_strlit("5");
            assert("5"@ =~= seq!['5']);
        }
        "5"
    } else if d == 6 {
        proof {
            reveal_strlit("6");
            assert("6"@ =~= seq!['6']);
        }
        "6"
    } else if d == 7 {
        proof {
            reveal_strlit("7");
            assert("7"@ =~= seq!['7']);
        }
        "7"
    } else if d == 8 {
        proof {
            reveal_strlit("8");
            assert("8"@ =~= seq!['8']);
        }
        "8"
    } else {
        proof {
            reveal_strlit("9");
            assert("9"@ =~= seq!['9']);
        }
        "9"
    }
}

/// `n` written out in decimal.
pub fn decimal_string(n: usize) -> (r: String)
    ensures
        r@ == spec_decimal(n as nat),
    decreases n,
{
    if n < 10 {
        let mut r = String::new();
        r.append(digit_str(n));
        proof {
            assert(r@ =~= spec_decimal(n as nat));
        }
        r
    } else {
        let mut r = decimal_string(n / 10);
        r.append(digit_str(n % 10));
        proof {
            assert(r@ =~= spec_decimal(n as nat));
        }
        r
    }
}

impl TargetKind {
    /// The kind's marker in the textual dump.
    pub fn render(&self) -> (r: String)
        ensures
            r@ == spec_render_kind(*self),
    {
        match self {
            TargetKind::Binary => {
                let r: String = "bin ".to_owned();
                r
            },
            TargetKind::Library => {
                let r: String = "lib ".to_owned();
                r
            },
            TargetKind::Crate => {
                let r: String = "".to_owned();
                r
            },
        }
    }
}

impl Dep {
    /// The edge's line body in the textual dump: marker, a space, the name.
    pub fn render(&self) -> (r: String)
        ensures
            r@ == spec_render_kind(self@.kind) + " "@ + self@.name,
    {
        let mut r = self.kind.render();
        r.append(" ");
        r.append(self.name.as_str());
        r
    }
}

impl PartialEq for Target {
    fn eq(&self, other: &Target) -> bool {
        self.name == other.name && self.kind == other.kind && self.version == other.version
    }
}

impl vstd::std_specs::cmp::PartialEqSpecImpl for Target {
    open spec fn obeys_eq_spec() -> bool {
        true
    }

    open spec fn eq_spec(&self, other: &Target) -> bool {
        same_node(self@, other@)
    }
}

impl Dep {
    /// An equal copy of this edge.
    pub fn duplicate(&self) -> (r: Dep)
        ensures
            r@ == self@,
    {
        Dep { name: self.name.clone(), kind: self.kind, version: self.version.clone() }
    }
}

impl Target {
    pub fn new(name: String, kind: TargetKind, version: String) -> (t: Target)
        ensures
            t@.name == name@,
            t@.kind == kind,
            t@.version == version@,
            t@.dependencies is None,
            t@.height == 0,
    {
        Target { name, kind, version, dependencies: None, height: 0 }
    }

    /// Append edges to this target. An existing list is only ever grown,
    /// never replaced: several declaration sources may contribute edges to
    /// the same target.
    pub fn add_dependencies(&mut self, dependencies: Vec<Dep>)
        ensures
            final(self)@.name == old(self)@.name,
            final(self)@.kind == old(self)@.kind,
            final(self)@.version == old(self)@.version,
            final(self)@.height == old(self)@.height,
            final(self)@.dependencies == Some(
                deps_of(old(self)@) + dependencies.deep_view(),
            ),
    {
        let mut merged = match self.dependencies.take() {
            Some(v) => v,
            None => Vec::new(),
        };
        let mut added = dependencies;
        merged.append(&mut added);
        self.dependencies = Some(merged);
    }

    /// An equal copy of this target. The graph is a flat collection, so
    /// stages copy whole targets freely; this copy is one the verifier can
    /// see through, field by field.
    pub fn duplicate(&self) -> (r: Target)
        ensures
            r@ == self@,
    {
        let dependencies = match &self.dependencies {
            None => None,
            Some(ds) => {
                let mut copies: Vec<Dep> = Vec::new();
                let mut k: usize = 0;
                while k < ds.len()
                    invariant
                        k <= ds.len(),
                        copies.deep_view() =~= ds.deep_view().subrange(0, k as int),
                    decreases ds.len() - k,
                {
                    let ghost prev = copies.deep_view();
                    copies.push(ds[k].duplicate());
                    proof {
                        assert(copies.deep_view() =~= prev.push(ds.deep_view()[k as int]));
                        assert(copies.deep_view() =~= ds.deep_view().subrange(0, k as int + 1));
                    }
                    k = k + 1;
                }
                proof {
                    assert(ds.deep_view().subrange(0, ds.len() as int) =~= ds.deep_view());
                }
                Some(copies)
            },
        };
        let r = Target {
            name: self.name.clone(),
            kind: self.kind,
            version: self.version.clone(),
            dependencies,
            height: self.height,
        };
        r
    }

    /// The target's textual dump: a header line
    /// `(height) kind name version:` and one indented line per dependency.
    pub fn render(&self) -> (r: String)
        ensures
            r@ == spec_render_target(self@),
    {
        let mut r: String = "(".to_owned();
        r.append(decimal_string(self.height).as_str());
        r.append(") ");
        r.append(self.kind.render().as_str());
        r.append(self.name.as_str());
        r.append(" ");
        r.append(self.version.as_str());
        match &self.dependencies {
            Some(_) => {
                r.append(":");
            },
            None => {},
        }
        r.append("\n");
        match &self.dependencies {
            None => {
                proof {
                    reveal_strlit("");
                    assert(""@ =~= Seq::<char>::empty());
                    assert(r@ =~= spec_render_target(self@));
                }
            },
            Some(ds) => {
                let ghost head = r@;
                let mut k: usize = 0;
                while k < ds.len()
                    invariant
                        k <= ds.len(),
                        head + spec_render_deps(ds.deep_view(), 0) =~= r@ + spec_render_deps(
                            ds.deep_view(),
                            k as int,
                        ),
                    decreases ds.len() - k,
                {
                    let ghost pre = r@;
                    r.append(" |- ");
                    r.append(ds[k].render().as_str());
                    r.append("\n");
                    proof {
                        assert(r@ =~= pre + spec_render_dep(ds.deep_view()[k as int]));
                        assert(head + spec_render_deps(ds.deep_view(), 0) =~= r@
                            + spec_render_deps(ds.deep_view(), k as int + 1));
                    }
                    k = k + 1;
                }
                proof {
                    assert(spec_render_deps(ds.deep_view(), ds.len() as int)
                        =~= Seq::<char>::empty());
                    assert(r@ =~= head + spec_render_deps(ds.deep_view(), 0));
                    assert(r@ =~= spec_render_target(self@));
                }
            },
        }
        r
    }

    /// Whether the dependency edge `d` ends at this target.
    pub fn matches_dep(&self, d: &Dep) -> (r: bool)
        ensures
            r == edge_ends_at(self@, d@),
    {
        self.name == d.name && self.kind == d.kind
    }
}

} // verus!
