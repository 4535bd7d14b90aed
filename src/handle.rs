use vstd::prelude::*;
use core::cmp::Ordering;

verus! {

/// Compares two integers.
pub open spec fn int_cmp(x: int, y: int) -> Ordering {
    if x < y {
        Ordering::Less
    } else if x > y {
        Ordering::Greater
    } else {
        Ordering::Equal
    }
}

/// Lexicographic comparison: the first `Less` or `Greater` decides, `Equal` defers.
pub open spec fn then_cmp(first: Ordering, second: Ordering) -> Ordering {
    if first == Ordering::Equal {
        second
    } else {
        first
    }
}

/// Lexicographic order on sequences of integers; a proper prefix comes first.
pub open spec fn lex_cmp(a: Seq<int>, b: Seq<int>) -> Ordering
    decreases a.len(),
{
    if a.len() == 0 {
        if b.len() == 0 {
            Ordering::Equal
        } else {
            Ordering::Less
        }
    } else if b.len() == 0 {
        Ordering::Greater
    } else if a[0] != b[0] {
        int_cmp(a[0], b[0])
    } else {
        lex_cmp(a.drop_first(), b.drop_first())
    }
}

pub open spec fn chars_key(s: Seq<char>) -> Seq<int> {
    s.map_values(|c: char| c as int)
}

pub open spec fn bytes_key(s: Seq<u8>) -> Seq<int> {
    s.map_values(|b: u8| b as int)
}


/// The opposite outcome of a comparison.
pub open spec fn flip(o: Ordering) -> Ordering {
    match o {
        Ordering::Less => Ordering::Greater,
        Ordering::Equal => Ordering::Equal,
        Ordering::Greater => Ordering::Less,
    }
}

pub proof fn lemma_lex_refl(a: Seq<int>)
    ensures
        lex_cmp(a, a) == Ordering::Equal,
    decreases a.len(),
{
    if a.len() > 0 {
        lemma_lex_refl(a.drop_first());
    }
}

pub proof fn lemma_lex_equal(a: Seq<int>, b: Seq<int>)
    requires
        lex_cmp(a, b) == Ordering::Equal,
    ensures
        a == b,
    decreases a.len(),
{
    if a.len() > 0 && b.len() > 0 {
        lemma_lex_equal(a.drop_first(), b.drop_first());
        assert(a =~= seq![a[0]] + a.drop_first());
        assert(b =~= seq![b[0]] + b.drop_first());
    }
}

pub proof fn lemma_lex_flip(a: Seq<int>, b: Seq<int>)
    ensures
        lex_cmp(a, b) == flip(lex_cmp(b, a)),
    decreases a.len(),
{
    if a.len() > 0 && b.len() > 0 && a[0] == b[0] {
        lemma_lex_flip(a.drop_first(), b.drop_first());
    }
}

pub proof fn lemma_lex_trans(a: Seq<int>, b: Seq<int>, c: Seq<int>)
    requires
        lex_cmp(a, b) == Ordering::Less,
        lex_cmp(b, c) == Ordering::Less,
    ensures
        lex_cmp(a, c) == Ordering::Less,
    decreases a.len(),
{
    if a.len() > 0 && b.len() > 0 && c.len() > 0 && a[0] == b[0] && b[0] == c[0] {
        lemma_lex_trans(a.drop_first(), b.drop_first(), c.drop_first());
    }
}

/// Once the first `i` items agree, the comparison is decided by what follows them.
proof fn lemma_lex_skip(a: Seq<int>, b: Seq<int>, i: int)
    requires
        0 <= i <= a.len(),
        i <= b.len(),
        a.subrange(0, i) == b.subrange(0, i),
    ensures
        lex_cmp(a, b) == lex_cmp(a.skip(i), b.skip(i)),
    decreases i,
{
    if i > 0 {
        assert(a[0] == a.subrange(0, i)[0]);
        assert(b[0] == b.subrange(0, i)[0]);
        assert(a.drop_first().subrange(0, i - 1) =~= a.subrange(0, i).drop_first());
        assert(b.drop_first().subrange(0, i - 1) =~= b.subrange(0, i).drop_first());
        lemma_lex_skip(a.drop_first(), b.drop_first(), i - 1);
        assert(a.drop_first().skip(i - 1) =~= a.skip(i));
        assert(b.drop_first().skip(i - 1) =~= b.skip(i));
    } else {
        assert(a.skip(0) =~= a);
        assert(b.skip(0) =~= b);
    }
}

proof fn lemma_chars_key_injective(a: Seq<char>, b: Seq<char>)
    requires
        chars_key(a) == chars_key(b),
    ensures
        a == b,
{
    assert(a.len() == chars_key(a).len());
    assert forall|i: int| 0 <= i < a.len() implies a[i] == b[i] by {
        assert(chars_key(a)[i] == a[i] as int);
        assert(chars_key(b)[i] == b[i] as int);
    }
    assert(a =~= b);
}

proof fn lemma_bytes_key_injective(a: Seq<u8>, b: Seq<u8>)
    requires
        bytes_key(a) == bytes_key(b),
    ensures
        a == b,
{
    assert(a.len() == bytes_key(a).len());
    assert forall|i: int| 0 <= i < a.len() implies a[i] == b[i] by {
        assert(bytes_key(a)[i] == a[i] as int);
        assert(bytes_key(b)[i] == b[i] as int);
    }
    assert(a =~= b);
}

/// Compares two strings character by character, by code point; this is the
/// order of their UTF-8 bytes.
fn compare_text(a: &String, b: &String) -> (r: Ordering)
    ensures
        r == lex_cmp(chars_key(a@), chars_key(b@)),
{
    let sa = a.as_str();
    let sb = b.as_str();
    let la = sa.unicode_len();
    let lb = sb.unicode_len();
    let ghost ka = chars_key(a@);
    let ghost kb = chars_key(b@);
    let mut i: usize = 0;
    while i < la && i < lb
        invariant
            sa@ == a@,
            sb@ == b@,
            la == a@.len(),
            lb == b@.len(),
            ka == chars_key(a@),
            kb == chars_key(b@),
            i <= la,
            i <= lb,
            ka.subrange(0, i as int) == kb.subrange(0, i as int),
        decreases la - i,
    {
        let ca = sa.get_char(i);
        let cb = sb.get_char(i);
        if ca != cb {
            proof {
                lemma_lex_skip(ka, kb, i as int);
                assert(ka.skip(i as int)[0] == ca as int);
                assert(kb.skip(i as int)[0] == cb as int);
            }
            if (ca as u32) < (cb as u32) {
                return Ordering::Less;
            } else {
                return Ordering::Greater;
            }
        }
        assert(ka.subrange(0, i + 1) =~= ka.subrange(0, i as int).push(ka[i as int]));
        assert(kb.subrange(0, i + 1) =~= kb.subrange(0, i as int).push(kb[i as int]));
        i = i + 1;
    }
    proof {
        lemma_lex_skip(ka, kb, i as int);
    }
    if la == lb {
        Ordering::Equal
    } else if la < lb {
        Ordering::Less
    } else {
        Ordering::Greater
    }
}

/// Compares two byte buffers lexicographically.
fn compare_bytes(a: &Vec<u8>, b: &Vec<u8>) -> (r: Ordering)
    ensures
        r == lex_cmp(bytes_key(a@), bytes_key(b@)),
{
    let ghost ka = bytes_key(a@);
    let ghost kb = bytes_key(b@);
    let mut i: usize = 0;
    while i < a.len() && i < b.len()
        invariant
            ka == bytes_key(a@),
            kb == bytes_key(b@),
            i <= a.len(),
            i <= b.len(),
            ka.subrange(0, i as int) == kb.subrange(0, i as int),
        decreases a.len() - i,
    {
        let x = a[i];
        let y = b[i];
        if x != y {
            proof {
                lemma_lex_skip(ka, kb, i as int);
                assert(ka.skip(i as int)[0] == x as int);
                assert(kb.skip(i as int)[0] == y as int);
            }
            if x < y {
                return Ordering::Less;
            } else {
                return Ordering::Greater;
            }
        }
        assert(ka.subrange(0, i + 1) =~= ka.subrange(0, i as int).push(ka[i as int]));
        assert(kb.subrange(0, i + 1) =~= kb.subrange(0, i as int).push(kb[i as int]));
        i = i + 1;
    }
    proof {
        lemma_lex_skip(ka, kb, i as int);
    }
    if a.len() == b.len() {
        Ordering::Equal
    } else if a.len() < b.len() {
        Ordering::Less
    } else {
        Ordering::Greater
    }
}

/// Where a font's bytes come from.
///
/// `index` selects one face inside a font collection; it is 0 for a file or
/// buffer that holds a single face.
#[derive(Clone, Eq, Ord)]
pub enum FontDataHandle {
    OnDisk { path: String, index: u32 },
    Memory { name: String, data: Vec<u8>, index: u32 },
}

/// The mathematical value of a [`FontDataHandle`].
pub enum HandleView {
    OnDisk { path: Seq<char>, index: u32 },
    Memory { name: Seq<char>, data: Seq<u8>, index: u32 },
}

impl View for FontDataHandle {
    type V = HandleView;

    open spec fn view(&self) -> HandleView {
        match self {
            FontDataHandle::OnDisk { path, index } => HandleView::OnDisk { path: path@, index: *index },
            FontDataHandle::Memory { name, data, index } => HandleView::Memory {
                name: name@,
                data: data@,
                index: *index,
            },
        }
    }
}

/// The total order on handles: every `OnDisk` handle before every `Memory`
/// handle, then the fields in declared order. Text is ordered by code point
/// and bytes by value, each lexicographically.
pub open spec fn handle_cmp(a: HandleView, b: HandleView) -> Ordering {
    match (a, b) {
        (HandleView::OnDisk { path: p, index: i }, HandleView::OnDisk { path: q, index: j }) => then_cmp(
            lex_cmp(chars_key(p), chars_key(q)),
            int_cmp(i as int, j as int),
        ),
        (HandleView::OnDisk { .. }, HandleView::Memory { .. }) => Ordering::Less,
        (HandleView::Memory { .. }, HandleView::OnDisk { .. }) => Ordering::Greater,
        (
            HandleView::Memory { name: n, data: d, index: i },
            HandleView::Memory { name: m, data: e, index: j },
        ) => then_cmp(
            lex_cmp(chars_key(n), chars_key(m)),
            then_cmp(lex_cmp(bytes_key(d), bytes_key(e)), int_cmp(i as int, j as int)),
        ),
    }
}

proof fn lemma_text_equal(a: Seq<char>, b: Seq<char>)
    ensures
        lex_cmp(chars_key(a), chars_key(b)) == Ordering::Equal <==> a == b,
{
    lemma_lex_refl(chars_key(a));
    if lex_cmp(chars_key(a), chars_key(b)) == Ordering::Equal {
        lemma_lex_equal(chars_key(a), chars_key(b));
        lemma_chars_key_injective(a, b);
    }
}

proof fn lemma_bytes_equal(a: Seq<u8>, b: Seq<u8>)
    ensures
        lex_cmp(bytes_key(a), bytes_key(b)) == Ordering::Equal <==> a == b,
{
    lemma_lex_refl(bytes_key(a));
    if lex_cmp(bytes_key(a), bytes_key(b)) == Ordering::Equal {
        lemma_lex_equal(bytes_key(a), bytes_key(b));
        lemma_bytes_key_injective(a, b);
    }
}

/// Two handles compare `Equal` exactly when they are the same value.
pub proof fn lemma_handle_cmp_equal(a: HandleView, b: HandleView)
    ensures
        handle_cmp(a, b) == Ordering::Equal <==> a == b,
{
    match (a, b) {
        (HandleView::OnDisk { path: p, .. }, HandleView::OnDisk { path: q, .. }) => {
            lemma_text_equal(p, q);
        },
        (HandleView::Memory { name: n, data: d, .. }, HandleView::Memory { name: m, data: e, .. }) => {
            lemma_text_equal(n, m);
            lemma_bytes_equal(d, e);
        },
        _ => {},
    }
}

impl FontDataHandle {
    /// Compares two handles in the order of [`handle_cmp`].
    pub fn compare(&self, other: &FontDataHandle) -> (r: Ordering)
        ensures
            r == handle_cmp(self@, other@),
    {
        match (self, other) {
            (FontDataHandle::OnDisk { path: p, index: i }, FontDataHandle::OnDisk { path: q, index: j }) => {
                let c = compare_text(p, q);
                match c {
                    Ordering::Equal => compare_index(*i, *j),
                    _ => c,
                }
            },
            (FontDataHandle::OnDisk { .. }, FontDataHandle::Memory { .. }) => Ordering::Less,
            (FontDataHandle::Memory { .. }, FontDataHandle::OnDisk { .. }) => Ordering::Greater,
            (
                FontDataHandle::Memory { name: n, data: d, index: i },
                FontDataHandle::Memory { name: m, data: e, index: j },
            ) => {
                let c = compare_text(n, m);
                match c {
                    Ordering::Equal => {
                        let c2 = compare_bytes(d, e);
                        match c2 {
                            Ordering::Equal => compare_index(*i, *j),
                            _ => c2,
                        }
                    },
                    _ => c,
                }
            },
        }
    }
}

fn compare_index(i: u32, j: u32) -> (r: Ordering)
    ensures
        r == int_cmp(i as int, j as int),
{
    if i < j {
        Ordering::Less
    } else if i > j {
        Ordering::Greater
    } else {
        Ordering::Equal
    }
}

impl PartialEq for FontDataHandle {
    fn eq(&self, other: &FontDataHandle) -> (r: bool) {
        let c = self.compare(other);
        proof {
            lemma_handle_cmp_equal(self@, other@);
        }
        matches!(c, Ordering::Equal)
    }
}

impl vstd::std_specs::cmp::PartialEqSpecImpl for FontDataHandle {
    open spec fn obeys_eq_spec() -> bool {
        true
    }

    open spec fn eq_spec(&self, other: &FontDataHandle) -> bool {
        self@ == other@
    }
}

impl PartialOrd for FontDataHandle {
    fn partial_cmp(&self, other: &FontDataHandle) -> (r: Option<Ordering>) {
        Some(self.compare(other))
    }
}

impl vstd::std_specs::cmp::PartialOrdSpecImpl for FontDataHandle {
    open spec fn obeys_partial_cmp_spec() -> bool {
        true
    }

    open spec fn partial_cmp_spec(&self, other: &FontDataHandle) -> Option<Ordering> {
        Some(handle_cmp(self@, other@))
    }
}

proof fn lemma_lex_chain(a: Seq<int>, b: Seq<int>, c: Seq<int>)
    ensures
        lex_cmp(a, b) == Ordering::Equal ==> a == b,
        lex_cmp(b, c) == Ordering::Equal ==> b == c,
        lex_cmp(a, b) == Ordering::Less && lex_cmp(b, c) == Ordering::Less ==> lex_cmp(a, c)
            == Ordering::Less,
        lex_cmp(a, b) == flip(lex_cmp(b, a)),
{
    lemma_lex_flip(a, b);
    if lex_cmp(a, b) == Ordering::Equal {
        lemma_lex_equal(a, b);
    }
    if lex_cmp(b, c) == Ordering::Equal {
        lemma_lex_equal(b, c);
    }
    if lex_cmp(a, b) == Ordering::Less && lex_cmp(b, c) == Ordering::Less {
        lemma_lex_trans(a, b, c);
    }
}

/// The order on handles is a total order that agrees with equality:
/// a handle is `Equal` to itself and to nothing else, swapping the two
/// sides flips the outcome, `Less` is transitive, and two handles are equal
/// exactly when their diagnostic text's identifying fields (path and index,
/// or name, bytes and index) agree.
pub proof fn lemma_handle_order(a: HandleView, b: HandleView, c: HandleView)
    ensures
        handle_cmp(a, a) == Ordering::Equal,
        handle_cmp(a, b) == Ordering::Equal <==> a == b,
        handle_cmp(a, b) == flip(handle_cmp(b, a)),
        handle_cmp(a, b) == Ordering::Less && handle_cmp(b, c) == Ordering::Less ==> handle_cmp(a, c)
            == Ordering::Less,
        a == b ==> describe_text(a) == describe_text(b),
{
    lemma_handle_cmp_equal(a, a);
    lemma_handle_cmp_equal(a, b);
    match (a, b, c) {
        (
            HandleView::OnDisk { path: p, .. },
            HandleView::OnDisk { path: q, .. },
            HandleView::OnDisk { path: r, .. },
        ) => {
            lemma_lex_chain(chars_key(p), chars_key(q), chars_key(r));
        },
        (
            HandleView::Memory { name: n1, data: d1, .. },
            HandleView::Memory { name: n2, data: d2, .. },
            HandleView::Memory { name: n3, data: d3, .. },
        ) => {
            lemma_lex_chain(chars_key(n1), chars_key(n2), chars_key(n3));
            lemma_lex_chain(bytes_key(d1), bytes_key(d2), bytes_key(d3));
        },
        (HandleView::OnDisk { path: p, .. }, HandleView::OnDisk { path: q, .. }, _) => {
            lemma_lex_flip(chars_key(p), chars_key(q));
        },
        (HandleView::Memory { name: n1, data: d1, .. }, HandleView::Memory { name: n2, data: d2, .. }, _) => {
            lemma_lex_flip(chars_key(n1), chars_key(n2));
            lemma_lex_flip(bytes_key(d1), bytes_key(d2));
        },
        _ => {},
    }
}

/// The digits of `0..=9`.
pub open spec fn digit_chars() -> Seq<char> {
    seq!['0', '1', '2', '3', '4', '5', '6', '7', '8', '9']
}

/// The decimal text of a natural number, without leading zeros.
pub open spec fn decimal(n: nat) -> Seq<char>
    decreases n,
{
    if n < 10 {
        seq![digit_chars()[n as int]]
    } else {
        decimal(n / 10).push(digit_chars()[(n % 10) as int])
    }
}

/// The diagnostic text of a handle. It names the path and index of a file,
/// or the name, length and index of a buffer, but never the buffer's bytes,
/// so that its size stays bounded whatever the size of the font.
pub open spec fn describe_text(h: HandleView) -> Seq<char> {
    match h {
        HandleView::OnDisk { path, index } => "OnDisk { path: \""@ + path + "\", index: "@ + decimal(
            index as nat,
        ) + " }"@,
        HandleView::Memory { name, data, index } => "Memory { name: \""@ + name + "\", data_len: "@
            + decimal(data.len()) + ", index: "@ + decimal(index as nat) + " }"@,
    }
}

fn digit_text(d: u64) -> (r: &'static str)
    requires
        d < 10,
    ensures
        r@ == seq![digit_chars()[d as int]],
{
    proof {
        reveal_strlit("0");
        reveal_strlit("1");
        reveal_strlit("2");
        reveal_strlit("3");
        reveal_strlit("4");
        reveal_strlit("5");
        reveal_strlit("6");
        reveal_strlit("7");
        reveal_strlit("8");
        reveal_strlit("9");
    }
    let r = match d {
        0 => "0",
        1 => "1",
        2 => "2",
        3 => "3",
        4 => "4",
        5 => "5",
        6 => "6",
        7 => "7",
        8 => "8",
        _ => "9",
    };
    assert(r@ =~= seq![digit_chars()[d as int]]);
    r
}

/// Appends the decimal text of `n` to `out`.
fn push_decimal(out: &mut String, n: u64)
    ensures
        final(out)@ == old(out)@ + decimal(n as nat),
    decreases n,
{
    if n >= 10 {
        push_decimal(out, n / 10);
    }
    out.append(digit_text(n % 10));
    if n >= 10 {
        assert(final(out)@ =~= old(out)@ + decimal(n as nat));
    } else {
        assert(final(out)@ =~= old(out)@ + decimal(n as nat));
    }
}

impl FontDataHandle {
    /// The diagnostic text of this handle (see [`describe_text`]).
    pub fn describe(&self) -> (r: String)
        ensures
            r@ == describe_text(self@),
    {
        let mut out = String::new();
        match self {
            FontDataHandle::OnDisk { path, index } => {
                proof {
                    reveal_strlit("OnDisk { path: \"");
                    reveal_strlit("\", index: ");
                    reveal_strlit(" }");
                }
                out.append("OnDisk { path: \"");
                out.append(path.as_str());
                out.append("\", index: ");
                push_decimal(&mut out, *index as u64);
                out.append(" }");
                assert(out@ =~= describe_text(self@));
            },
            FontDataHandle::Memory { name, data, index } => {
                proof {
                    reveal_strlit("Memory { name: \"");
                    reveal_strlit("\", data_len: ");
                    reveal_strlit(", index: ");
                    reveal_strlit(" }");
                }
                out.append("Memory { name: \"");
                out.append(name.as_str());
                out.append("\", data_len: ");
                push_decimal(&mut out, data.len() as u64);
                out.append(", index: ");
                push_decimal(&mut out, *index as u64);
                out.append(" }");
                assert(out@ =~= describe_text(self@));
            },
        }
        out
    }
}

} // verus!
