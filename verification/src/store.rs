use crate::text::push_char;
use vstd::prelude::*;
use vstd::string::*;

verus! {

// ---------------------------------------------------------------------------
// The template store
// ---------------------------------------------------------------------------

/// One stored template: its lookup name, its source text, and whether it was
/// loaded as a layout (layouts and ordinary fragments share one namespace).
pub struct TemplateEntry {
    pub name: String,
    pub source: String,
    pub layout: bool,
}

pub ghost struct TemplateEntryV {
    pub name: Seq<char>,
    pub source: Seq<char>,
    pub layout: bool,
}

impl View for TemplateEntry {
    type V = TemplateEntryV;

    open spec fn view(&self) -> TemplateEntryV {
        TemplateEntryV { name: self.name@, source: self.source@, layout: self.layout }
    }
}

/// The single name → source mapping for layouts and fragments, first
/// insertion kept on a name collision.
pub struct TemplateStore {
    pub entries: Vec<TemplateEntry>,
}

impl View for TemplateStore {
    type V = Seq<TemplateEntryV>;

    open spec fn view(&self) -> Seq<TemplateEntryV> {
        Seq::new(self.entries@.len(), |i: int| self.entries@[i]@)
    }
}

/// Whether some entry carries the name.
pub open spec fn spec_store_has(s: Seq<TemplateEntryV>, name: Seq<char>) -> bool {
    exists|i: int| 0 <= i < s.len() && s[i].name == name
}

/// The source of the first entry under the name, if any.
pub open spec fn spec_store_lookup(s: Seq<TemplateEntryV>, name: Seq<char>) -> Option<Seq<char>>
    decreases s.len(),
{
    if s.len() == 0 {
        None
    } else if s[0].name == name {
        Some(s[0].source)
    } else {
        spec_store_lookup(s.skip(1), name)
    }
}

/// The collision report: it names the entry and the kind being inserted.
pub open spec fn spec_collision_msg(name: Seq<char>, layout: bool) -> Seq<char> {
    if layout {
        seq!['"'] + name + "\" already exists as a layout, note: layouts and includes share the same name"@
    } else {
        seq!['"'] + name
            + "\" already exists as a includes, note: layouts and includes share the same name"@
    }
}

impl TemplateStore {
    pub fn new() -> (r: TemplateStore)
        ensures
            r@ == Seq::<TemplateEntryV>::empty(),
    {
        let r = TemplateStore { entries: Vec::new() };
        proof {
            assert(r@ =~= Seq::<TemplateEntryV>::empty());
        }
        r
    }

    pub fn has(&self, name: &str) -> (r: bool)
        ensures
            r == spec_store_has(self@, name@),
    {
        let n = self.entries.len();
        let mut i: usize = 0;
        while i < n
            invariant
                0 <= i <= n,
                n == self.entries@.len(),
                forall|k: int| 0 <= k < i ==> self@[k].name != name@,
            decreases n - i,
        {
            if str_eq_ref(&self.entries[i].name, name) {
                assert(self@[i as int].name == name@);
                return true;
            }
            i = i + 1;
        }
        false
    }

    /// The source stored under the name, if any.
    pub fn lookup(&self, name: &str) -> (r: Option<&String>)
        ensures
            match r {
                Some(s) => spec_store_lookup(self@, name@) == Some(s@),
                None => spec_store_lookup(self@, name@) == None::<Seq<char>>,
            },
    {
        let n = self.entries.len();
        let mut i: usize = 0;
        proof {
            assert(self@.skip(0) =~= self@);
        }
        while i < n
            invariant
                0 <= i <= n,
                n == self.entries@.len(),
                spec_store_lookup(self@, name@) == spec_store_lookup(
                    self@.skip(i as int),
                    name@,
                ),
            decreases n - i,
        {
            proof {
                assert(self@.skip(i as int)[0] == self@[i as int]);
            }
            if str_eq_ref(&self.entries[i].name, name) {
                return Some(&self.entries[i].source);
            }
            i = i + 1;
            proof {
                assert(self@.skip(i - 1).skip(1) =~= self@.skip(i as int));
            }
        }
        proof {
            assert(self@.skip(n as int).len() == 0);
        }
        None
    }

    /// Inserts the template under its name.  A name already present keeps its
    /// first entry; the returned report then says which kind collided.
    pub fn insert(&mut self, name: String, source: String, layout: bool) -> (r: Option<String>)
        ensures
            spec_store_has(old(self)@, name@) ==> final(self)@ == old(self)@ && (match r {
                Some(m) => m@ == spec_collision_msg(name@, layout),
                None => false,
            }),
            !spec_store_has(old(self)@, name@) ==> final(self)@ == old(self)@.push(
                TemplateEntryV { name: name@, source: source@, layout },
            ) && r is None,
    {
        if self.has(name.as_str()) {
            let mut m = String::new();
            push_char(&mut m, '"');
            m.append(name.as_str());
            if layout {
                m.append(
                    "\" already exists as a layout, note: layouts and includes share the same name",
                );
            } else {
                m.append(
                    "\" already exists as a includes, note: layouts and includes share the same name",
                );
            }
            Some(m)
        } else {
            let ghost before = self@;
            self.entries.push(TemplateEntry { name, source, layout });
            proof {
                assert(self@ =~= before.push(
                    TemplateEntryV { name: name@, source: source@, layout },
                ));
            }
            None
        }
    }

    /// The names of the stored templates, in insertion order.
    pub fn names(&self) -> (r: Vec<String>)
        ensures
            r.deep_view() == self@.map_values(|e: TemplateEntryV| e.name),
    {
        let n = self.entries.len();
        let mut out: Vec<String> = Vec::new();
        let mut i: usize = 0;
        while i < n
            invariant
                0 <= i <= n,
                n == self.entries@.len(),
                out.deep_view() == self@.take(i as int).map_values(|e: TemplateEntryV| e.name),
            decreases n - i,
        {
            let ghost before = out.deep_view();
            out.push(self.entries[i].name.clone());
            i = i + 1;
            proof {
                assert(out.deep_view() =~= before.push(self@[i - 1].name));
                assert(self@.take(i as int).map_values(|e: TemplateEntryV| e.name) =~= before.push(
                    self@[i - 1].name,
                ));
            }
        }
        proof {
            assert(self@.take(n as int) =~= self@);
        }
        out
    }
}

fn str_eq_ref(a: &String, b: &str) -> (r: bool)
    ensures
        r == (a@ == b@),
{
    crate::text::str_eq(a.as_str(), b)
}

// ---------------------------------------------------------------------------
// The path side table
// ---------------------------------------------------------------------------

/// The backtrace side table: template name → the on-disk path it came from.
pub struct PathTable {
    pub entries: Vec<(String, String)>,
}

impl View for PathTable {
    type V = Seq<(Seq<char>, Seq<char>)>;

    open spec fn view(&self) -> Seq<(Seq<char>, Seq<char>)> {
        Seq::new(self.entries@.len(), |i: int| (self.entries@[i].0@, self.entries@[i].1@))
    }
}

/// The path of the first entry under the name, if any.
pub open spec fn spec_table_lookup(s: Seq<(Seq<char>, Seq<char>)>, name: Seq<char>) -> Option<
    Seq<char>,
>
    decreases s.len(),
{
    if s.len() == 0 {
        None
    } else if s[0].0 == name {
        Some(s[0].1)
    } else {
        spec_table_lookup(s.skip(1), name)
    }
}

impl PathTable {
    pub fn new() -> (r: PathTable)
        ensures
            r@ == Seq::<(Seq<char>, Seq<char>)>::empty(),
    {
        let r = PathTable { entries: Vec::new() };
        proof {
            assert(r@ =~= Seq::<(Seq<char>, Seq<char>)>::empty());
        }
        r
    }

    /// Appends the pair; an earlier entry under the same name keeps priority.
    pub fn push(&mut self, name: String, path: String)
        ensures
            final(self)@ == old(self)@.push((name@, path@)),
    {
        let ghost before = self@;
        self.entries.push((name, path));
        proof {
            assert(self@ =~= before.push((name@, path@)));
        }
    }

    pub fn lookup(&self, name: &str) -> (r: Option<&String>)
        ensures
            match r {
                Some(s) => spec_table_lookup(self@, name@) == Some(s@),
                None => spec_table_lookup(self@, name@) == None::<Seq<char>>,
            },
    {
        let n = self.entries.len();
        let mut i: usize = 0;
        proof {
            assert(self@.skip(0) =~= self@);
        }
        while i < n
            invariant
                0 <= i <= n,
                n == self.entries@.len(),
                spec_table_lookup(self@, name@) == spec_table_lookup(
                    self@.skip(i as int),
                    name@,
                ),
            decreases n - i,
        {
            proof {
                assert(self@.skip(i as int)[0] == self@[i as int]);
            }
            if str_eq_ref(&self.entries[i].0, name) {
                return Some(&self.entries[i].1);
            }
            i = i + 1;
            proof {
                assert(self@.skip(i - 1).skip(1) =~= self@.skip(i as int));
            }
        }
        proof {
            assert(self@.skip(n as int).len() == 0);
        }
        None
    }
}

} // verus!
