use vstd::prelude::*;
use vstd::seq_lib::seq_to_set_is_finite;

verus! {

/// The slant of a font.
#[derive(Clone, Copy, Debug, PartialEq, Eq, Structural, Hash)]
pub enum FontStyle {
    Normal,
    Italic,
    Oblique,
}

/// A description of a wanted font: its family and the weight, stretch and
/// style asked for. Two selections are the same key when all four agree.
#[derive(Clone, Debug, Eq, Hash)]
pub struct FontAttributes {
    pub family: String,
    pub weight: u16,
    pub stretch: u16,
    pub style: FontStyle,
}

/// The mathematical value of a [`FontAttributes`].
pub struct AttributesView {
    pub family: Seq<char>,
    pub weight: u16,
    pub stretch: u16,
    pub style: FontStyle,
}

impl View for FontAttributes {
    type V = AttributesView;

    open spec fn view(&self) -> AttributesView {
        AttributesView {
            family: self.family@,
            weight: self.weight,
            stretch: self.stretch,
            style: self.style,
        }
    }
}

impl PartialEq for FontAttributes {
    fn eq(&self, other: &FontAttributes) -> (r: bool) {
        self.family == other.family && self.weight == other.weight && self.stretch == other.stretch
            && self.style == other.style
    }
}

impl vstd::std_specs::cmp::PartialEqSpecImpl for FontAttributes {
    open spec fn obeys_eq_spec() -> bool {
        true
    }

    open spec fn eq_spec(&self, other: &FontAttributes) -> bool {
        self@ == other@
    }
}

impl FontAttributes {
    /// A selection of `family` at the given weight, stretch and style.
    pub fn new(family: &str, weight: u16, stretch: u16, style: FontStyle) -> (r: FontAttributes)
        ensures
            r@ == (AttributesView { family: family@, weight, stretch, style }),
    {
        FontAttributes { family: family.to_owned(), weight, stretch, style }
    }

    /// A copy of this selection with the same value.
    pub fn duplicate(&self) -> (r: FontAttributes)
        ensures
            r@ == self@,
    {
        FontAttributes {
            family: self.family.clone(),
            weight: self.weight,
            stretch: self.stretch,
            style: self.style,
        }
    }
}

/// The selections that earlier passes have already resolved. The caller owns
/// it and hands it to each load; a locator only reads it and adds to it.
pub struct LoadedSet {
    items: Vec<FontAttributes>,
}

impl LoadedSet {
    /// The values held, in the order they were added.
    pub closed spec fn keys(&self) -> Seq<AttributesView> {
        self.items@.map_values(|a: FontAttributes| a@)
    }

    /// No value is held twice.
    pub closed spec fn wf(&self) -> bool {
        self.keys().no_duplicates()
    }

    /// An empty set.
    pub fn new() -> (r: LoadedSet)
        ensures
            r.wf(),
            r@ == Set::<AttributesView>::empty(),
            r@.finite(),
    {
        let r = LoadedSet { items: Vec::new() };
        assert(r.keys() =~= Seq::<AttributesView>::empty());
        assert(r@ =~= Set::<AttributesView>::empty());
        r
    }

    /// Whether `a` is held.
    pub fn contains(&self, a: &FontAttributes) -> (r: bool)
        ensures
            r == self@.contains(a@),
    {
        let mut i: usize = 0;
        while i < self.items.len()
            invariant
                i <= self.items@.len(),
                forall|j: int| 0 <= j < i ==> self.keys()[j] != a@,
            decreases self.items.len() - i,
        {
            if self.items[i] == *a {
                assert(self.keys()[i as int] == a@);
                return true;
            }
            assert(self.keys()[i as int] != a@);
            i = i + 1;
        }
        assert(!self.keys().contains(a@));
        false
    }

    /// Adds `a`; returns whether it was not held before.
    pub fn insert(&mut self, a: FontAttributes) -> (r: bool)
        requires
            old(self).wf(),
        ensures
            final(self).wf(),
            final(self)@ == old(self)@.insert(a@),
            final(self)@.finite(),
            r == !old(self)@.contains(a@),
    {
        proof {
            seq_to_set_is_finite(self.keys());
        }
        if self.contains(&a) {
            assert(self@.insert(a@) =~= self@);
            return false;
        }
        let ghost before = self.keys();
        self.items.push(a);
        assert(self.keys() =~= before.push(a@));
        proof {
            before.lemma_push_to_set_commute(a@);
            seq_to_set_is_finite(self.keys());
        }
        true
    }

    /// The set of values held is finite.
    pub proof fn lemma_view_finite(&self)
        ensures
            self@.finite(),
    {
        seq_to_set_is_finite(self.keys());
    }

    /// How many selections are held.
    pub fn len(&self) -> (r: usize)
        requires
            self.wf(),
        ensures
            r == self@.len(),
    {
        proof {
            self.keys().unique_seq_to_set();
        }
        self.items.len()
    }
}

impl View for LoadedSet {
    type V = Set<AttributesView>;

    closed spec fn view(&self) -> Set<AttributesView> {
        self.keys().to_set()
    }
}

} // verus!
