//! The records of the area hierarchy.

use vstd::prelude::*;

verus! {

/// The four nesting levels of the hierarchy, from the broadest to the finest.
#[derive(Clone, Copy, Debug, PartialEq, Eq, Structural)]
pub enum AreaClass {
    Center,
    Office,
    Class10,
    Class20,
}

impl AreaClass {
    /// The number of levels between this one and `Center`.
    pub open spec fn depth(self) -> nat {
        match self {
            AreaClass::Center => 0,
            AreaClass::Office => 1,
            AreaClass::Class10 => 2,
            AreaClass::Class20 => 3,
        }
    }

    /// The name of the level, as it is written.
    pub open spec fn label_of(self) -> Seq<char> {
        match self {
            AreaClass::Center => "Center"@,
            AreaClass::Office => "Office"@,
            AreaClass::Class10 => "Class10"@,
            AreaClass::Class20 => "Class20"@,
        }
    }

    /// The name of the level, as it is written.
    pub fn label(self) -> (name: &'static str)
        ensures
            name@ == self.label_of(),
    {
        match self {
            AreaClass::Center => "Center",
            AreaClass::Office => "Office",
            AreaClass::Class10 => "Class10",
            AreaClass::Class20 => "Class20",
        }
    }

    /// The level next above this one; `Center` has none.
    pub open spec fn above(self) -> Option<AreaClass> {
        match self {
            AreaClass::Center => None,
            AreaClass::Office => Some(AreaClass::Center),
            AreaClass::Class10 => Some(AreaClass::Office),
            AreaClass::Class20 => Some(AreaClass::Class10),
        }
    }

    /// Whether this level lies strictly above `other`, that is nearer to `Center`.
    pub fn is_above(self, other: AreaClass) -> (above: bool)
        ensures
            above == (self.depth() < other.depth()),
    {
        match (self, other) {
            (AreaClass::Center, AreaClass::Center) => false,
            (AreaClass::Center, _) => true,
            (AreaClass::Office, AreaClass::Class10) => true,
            (AreaClass::Office, AreaClass::Class20) => true,
            (AreaClass::Office, _) => false,
            (AreaClass::Class10, AreaClass::Class20) => true,
            (AreaClass::Class10, _) => false,
            (AreaClass::Class20, _) => false,
        }
    }
}

/// One node of the hierarchy. `parent` and `children` refer to other nodes by
/// their codes; an absent field is `None`, never an empty placeholder.
#[derive(Debug, PartialEq, Eq)]
pub struct Area {
    pub code: String,
    pub name: String,
    pub en_name: String,
    pub class: AreaClass,
    pub parent: Option<String>,
    pub office_name: Option<String>,
    pub children: Option<Vec<String>>,
}

/// What an [`Area`] holds, as mathematical values.
pub struct AreaView {
    pub code: Seq<char>,
    pub name: Seq<char>,
    pub en_name: Seq<char>,
    pub class: AreaClass,
    pub parent: Option<Seq<char>>,
    pub office_name: Option<Seq<char>>,
    pub children: Option<Seq<Seq<char>>>,
}

/// The characters of an optional string.
pub open spec fn text_of(s: Option<String>) -> Option<Seq<char>> {
    match s {
        Some(t) => Some(t@),
        None => None,
    }
}

/// The characters of each string of an optional list.
pub open spec fn texts_of(list: Option<Vec<String>>) -> Option<Seq<Seq<char>>> {
    match list {
        Some(v) => Some(v@.map_values(|s: String| s@)),
        None => None,
    }
}

impl View for Area {
    type V = AreaView;

    open spec fn view(&self) -> AreaView {
        AreaView {
            code: self.code@,
            name: self.name@,
            en_name: self.en_name@,
            class: self.class,
            parent: text_of(self.parent),
            office_name: text_of(self.office_name),
            children: texts_of(self.children),
        }
    }
}

/// A copy of an optional string.
fn copy_text(s: &Option<String>) -> (out: Option<String>)
    ensures
        text_of(out) == text_of(*s),
{
    match s {
        Some(t) => Some(t.clone()),
        None => None,
    }
}

/// A copy of an optional list of strings.
fn copy_texts(list: &Option<Vec<String>>) -> (out: Option<Vec<String>>)
    ensures
        texts_of(out) == texts_of(*list),
{
    match list {
        Some(v) => {
            let mut out: Vec<String> = Vec::new();
            let mut i: usize = 0;
            while i < v.len()
                invariant
                    i <= v.len(),
                    out@.len() == i,
                    forall|k: int| 0 <= k < i ==> out@[k]@ == v@[k]@,
                decreases v.len() - i,
            {
                out.push(v[i].clone());
                i += 1;
            }
            assert(out@.map_values(|s: String| s@) =~= v@.map_values(|s: String| s@));
            Some(out)
        },
        None => None,
    }
}

impl Clone for Area {
    fn clone(&self) -> (area: Area)
        ensures
            area@ == self@,
    {
        Area {
            code: self.code.clone(),
            name: self.name.clone(),
            en_name: self.en_name.clone(),
            class: self.class,
            parent: copy_text(&self.parent),
            office_name: copy_text(&self.office_name),
            children: copy_texts(&self.children),
        }
    }
}

impl Area {
    /// A node with the given code, name and level, and every other field
    /// empty or absent.
    pub fn new(code: &str, name: &str, class: AreaClass) -> (area: Area)
        ensures
            area@ == (AreaView {
                code: code@,
                name: name@,
                en_name: Seq::empty(),
                class,
                parent: None,
                office_name: None,
                children: None,
            }),
    {
        Area {
            code: code.to_owned(),
            name: name.to_owned(),
            en_name: String::new(),
            class,
            parent: None,
            office_name: None,
            children: None,
        }
    }

    /// The same node with `parent` as the code of its parent.
    pub fn with_parent(self, parent: &str) -> (area: Area)
        ensures
            area@ == (AreaView { parent: Some(parent@), ..self@ }),
    {
        Area { parent: Some(parent.to_owned()), ..self }
    }
}

impl Area {
    /// The same node with `en_name` as its name in Latin letters.
    pub fn with_en_name(self, en_name: &str) -> (area: Area)
        ensures
            area@ == (AreaView { en_name: en_name@, ..self@ }),
    {
        Area { en_name: en_name.to_owned(), ..self }
    }

    /// The same node with `office_name` as the name of its office.
    pub fn with_office_name(self, office_name: &str) -> (area: Area)
        ensures
            area@ == (AreaView { office_name: Some(office_name@), ..self@ }),
    {
        Area { office_name: Some(office_name.to_owned()), ..self }
    }

    /// The same node with `children` as the codes of its children, in
    /// their order.
    pub fn with_children(self, children: Vec<String>) -> (area: Area)
        ensures
            area@ == (AreaView { children: texts_of(Some(children)), ..self@ }),
    {
        Area { children: Some(children), ..self }
    }
}

/// The views of a list of borrowed areas.
pub open spec fn views_of(list: Seq<&Area>) -> Seq<AreaView> {
    list.map_values(|a: &Area| a@)
}

} // verus!
