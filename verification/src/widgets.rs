//! The decisions that the editor widgets take, apart from the drawing.

use vstd::prelude::*;
use vstd::relations::injective_on;
use vstd::set_lib::{lemma_int_range, lemma_len_subset, lemma_map_size, set_int_range};

use crate::text::{
    chars_of, decimal, lemma_decimal_injective, push_chars, push_decimal, split_chars, split_parts,
};

verus! {

/// A text buffer that always holds exactly one character: the editor of a
/// `char` field. Typing replaces the character with the first one typed;
/// deleting does nothing.
pub struct CharString(String);

impl View for CharString {
    type V = Seq<char>;

    closed spec fn view(&self) -> Seq<char> {
        self.0@
    }
}

impl CharString {
    #[verifier::type_invariant]
    spec fn holds_one_char(self) -> bool {
        self.0@.len() == 1
    }

    /// A buffer holding `c`.
    pub fn new(c: char) -> (r: CharString)
        ensures
            r@ == seq![c],
    {
        let mut s = String::new();
        s.push(c);
        CharString(s)
    }

    /// The character held.
    pub fn char(&self) -> (c: char)
        ensures
            self@.len() == 1,
            c == self@[0],
    {
        proof {
            use_type_invariant(self);
        }
        self.0.as_str().get_char(0)
    }

    /// The buffer can always be edited.
    pub fn is_mutable(&self) -> (r: bool)
        ensures
            r,
    {
        true
    }

    /// The text held: one character.
    pub fn as_str(&self) -> (r: &str)
        ensures
            r@ == self@,
            r@.len() == 1,
    {
        proof {
            use_type_invariant(self);
        }
        self.0.as_str()
    }

    /// Typing `text`: the buffer then holds the first character of `text`,
    /// or stays as it was when `text` is empty. Returns the number of
    /// characters the cursor moves by, which is always 0.
    pub fn insert_text(&mut self, text: &str) -> (moved: usize)
        ensures
            moved == 0,
            final(self)@ == (if text@.len() > 0 {
                seq![text@[0]]
            } else {
                old(self)@
            }),
            final(self)@.len() == 1,
    {
        proof {
            use_type_invariant(&*self);
        }
        if !text.is_empty() {
            let c = text.get_char(0);
            let mut s = String::new();
            s.push(c);
            self.0 = s;
        }
        0
    }

    /// Deleting the characters from `from` to `to`: the buffer keeps its
    /// character.
    pub fn delete_char_range(&mut self, from: usize, to: usize)
        ensures
            final(self)@ == old(self)@,
    {
    }
}

/// The way a stroke is placed against a shape's outline, as the editor
/// offers it.
#[derive(PartialEq, Eq, Structural, Clone, Copy, Debug)]
pub enum StrokeKindChoice {
    Inside,
    Middle,
    Outside,
}

impl StrokeKindChoice {
    /// The position of the kind in the editor's list.
    pub open spec fn position(self) -> nat {
        match self {
            StrokeKindChoice::Inside => 0,
            StrokeKindChoice::Middle => 1,
            StrokeKindChoice::Outside => 2,
        }
    }

    /// The kind at position `i` of the editor's list.
    pub open spec fn at_position(i: nat) -> StrokeKindChoice {
        if i == 0 {
            StrokeKindChoice::Inside
        } else if i == 1 {
            StrokeKindChoice::Middle
        } else {
            StrokeKindChoice::Outside
        }
    }

    /// The position of this kind in the list of [`Self::labels`].
    pub fn index(&self) -> (i: usize)
        ensures
            i == self.position(),
            *self == StrokeKindChoice::Inside ==> i == 0,
            *self == StrokeKindChoice::Middle ==> i == 1,
            *self == StrokeKindChoice::Outside ==> i == 2,
    {
        match self {
            StrokeKindChoice::Inside => 0,
            StrokeKindChoice::Middle => 1,
            StrokeKindChoice::Outside => 2,
        }
    }

    /// The kind chosen at position `i` of the list of [`Self::labels`].
    pub fn from_index(i: usize) -> (k: StrokeKindChoice)
        requires
            i < 3,
        ensures
            k == Self::at_position(i as nat),
            i == 0 ==> k == StrokeKindChoice::Inside,
            i == 1 ==> k == StrokeKindChoice::Middle,
            i == 2 ==> k == StrokeKindChoice::Outside,
    {
        if i == 0 {
            StrokeKindChoice::Inside
        } else if i == 1 {
            StrokeKindChoice::Middle
        } else {
            StrokeKindChoice::Outside
        }
    }

    /// The texts the editor lists, in the order of the positions.
    pub fn labels() -> (v: Vec<String>)
        ensures
            v@.len() == 3,
            v@[0]@ == "Inside"@,
            v@[1]@ == "Middle"@,
            v@[2]@ == "Outside"@,
    {
        let mut v: Vec<String> = Vec::new();
        v.push("Inside".to_owned());
        v.push("Middle".to_owned());
        v.push("Outside".to_owned());
        v
    }
}

/// Whether a collapsing header toggles this frame.
pub open spec fn header_toggles(open: Option<bool>, is_open: bool, clicked: bool) -> bool {
    match open {
        Some(o) => o != is_open,
        None => clicked,
    }
}

/// Whether a collapsing header toggles this frame: when an `open` state is
/// asked for, exactly when the header is not in that state; otherwise
/// exactly when the header was clicked.
pub fn header_toggle(open: Option<bool>, is_open: bool, clicked: bool) -> (toggle: bool)
    ensures
        toggle == header_toggles(open, is_open, clicked),
{
    match open {
        Some(o) => o != is_open,
        None => clicked,
    }
}

/// A collapsing header ends the frame in the state it was asked for: open
/// when asked open, closed when asked closed; asked nothing, it changes state
/// exactly when clicked.
pub proof fn lemma_header_ends_as_asked(open: Option<bool>, is_open: bool, clicked: bool)
    ensures
        open matches Some(o) ==> (is_open != header_toggles(open, is_open, clicked)) == o,
        open is None ==> (is_open != header_toggles(open, is_open, clicked)) == (is_open
            != clicked),
{
}

/// The positions of the stroke kinds are `0`, `1` and `2`, and going from a
/// kind to its position and back, or from a position to its kind and back,
/// gives what one started with.
pub proof fn lemma_stroke_kind_positions(k: StrokeKindChoice, i: nat)
    ensures
        k.position() < 3,
        StrokeKindChoice::at_position(k.position()) == k,
        i < 3 ==> StrokeKindChoice::at_position(i).position() == i,
{
}

/// Makes `opt` hold a value exactly when `want_some`: a value made by
/// `make` when it held none, nothing when it held one; unchanged when it
/// already agrees.
pub fn set_option_presence<T, F: FnOnce() -> T>(opt: &mut Option<T>, want_some: bool, make: F)
    requires
        call_requires(make, ()),
    ensures
        final(opt).is_some() == want_some,
        old(opt).is_some() == want_some ==> *final(opt) == *old(opt),
        !old(opt).is_some() && want_some ==> call_ensures(make, (), final(opt)->0),
{
    if want_some && opt.is_none() {
        *opt = Some(make());
    } else if !want_some && opt.is_some() {
        *opt = None;
    }
}

/// `keys` holds a string equal to `k`.
pub open spec fn has_key(keys: Seq<String>, k: Seq<char>) -> bool {
    exists|j: int| 0 <= j < keys.len() && #[trigger] keys[j]@ == k
}

/// Whether `keys` holds a string equal to `k`.
fn contains_key(keys: &Vec<String>, k: &String) -> (b: bool)
    ensures
        b == has_key(keys@, k@),
{
    let n = keys.len();
    for j in 0..n
        invariant
            n == keys@.len(),
            forall|i: int| 0 <= i < j ==> keys@[i]@ != k@,
    {
        if keys[j] == *k {
            return true;
        }
    }
    false
}

/// If the decimal forms of `0..=i` are all among `keys`, there are more than
/// `i` keys.
proof fn lemma_keys_hold_decimals(keys: Seq<String>, i: nat)
    requires
        forall|m: nat| m <= i ==> has_key(keys, #[trigger] decimal(m)),
    ensures
        i + 1 <= keys.len(),
{
    let x = set_int_range(0, (i + 1) as int);
    let f = |m: int| choose|j: int| 0 <= j < keys.len() && #[trigger] keys[j]@ == decimal(m as nat);
    assert forall|m: int| x.contains(m) implies 0 <= #[trigger] f(m) < keys.len() && keys[f(m)]@
        == decimal(m as nat) by {
        assert(has_key(keys, decimal(m as nat)));
    }
    assert(injective_on(f, x)) by {
        assert forall|a: int, b: int| x.contains(a) && x.contains(b) && #[trigger] f(a) == #[trigger] f(b)
            implies a == b by {
            lemma_decimal_injective(a as nat, b as nat);
        }
    }
    lemma_int_range(0, (i + 1) as int);
    lemma_int_range(0, keys.len() as int);
    let y = x.map(f);
    lemma_map_size(x, y, f);
    assert(y.subset_of(set_int_range(0, keys.len() as int)));
    lemma_len_subset(y, set_int_range(0, keys.len() as int));
}

/// The smallest number whose decimal form is not among `keys`: the key a
/// new map entry gets.
pub fn free_entry_index(keys: &Vec<String>) -> (n: usize)
    ensures
        !has_key(keys@, decimal(n as nat)),
        forall|m: nat| m < n ==> has_key(keys@, #[trigger] decimal(m)),
        forall|j: int| 0 <= j < keys@.len() ==> (#[trigger] keys@[j])@ != decimal(n as nat),
        forall|m: nat| m < n ==> keys.deep_view().contains(#[trigger] decimal(m)),
{
    let len = keys.len();
    let mut i: usize = 0;
    loop
        invariant
            len == keys@.len(),
            i <= len,
            forall|m: nat| m < i ==> has_key(keys@, #[trigger] decimal(m)),
        decreases keys@.len() - i,
    {
        let mut candidate = String::new();
        push_decimal(&mut candidate, i);
        if !contains_key(keys, &candidate) {
            proof {
                assert forall|m: nat| m < i implies keys.deep_view().contains(
                    #[trigger] decimal(m),
                ) by {
                    assert(has_key(keys@, decimal(m)));
                    let j = choose|j: int| 0 <= j < keys@.len() && #[trigger] keys@[j]@ == decimal(m);
                    assert(keys.deep_view()[j] == decimal(m));
                }
            }
            return i;
        }
        proof {
            assert forall|m: nat| m <= i implies has_key(keys@, #[trigger] decimal(m)) by {
                if m == i {
                    assert(candidate@ == decimal(i as nat));
                }
            }
            lemma_keys_hold_decimals(keys@, i as nat);
        }
        i = i + 1;
    }
}

/// The key a new map entry gets: the decimal form of the smallest number
/// whose decimal form is not a key yet.
pub fn free_entry_key(keys: &Vec<String>) -> (k: String)
    ensures
        !has_key(keys@, k@),
        exists|n: nat|
            k@ == decimal(n) && forall|m: nat| m < n ==> has_key(keys@, #[trigger] decimal(m)),
        forall|j: int| 0 <= j < keys@.len() ==> (#[trigger] keys@[j])@ != k@,
        exists|n: nat|
            k@ == decimal(n) && forall|m: nat|
                m < n ==> keys.deep_view().contains(#[trigger] decimal(m)),
{
    let n = free_entry_index(keys);
    let mut k = String::new();
    push_decimal(&mut k, n);
    assert(k@ == decimal(n as nat));
    k
}

/// The key an entry of a map editor ends under once its key field has been
/// shown: the typed text when the field reports an edit and the text differs
/// from the key, otherwise the key itself. The flag tells whether the key
/// changed.
pub fn edited_entry_key(key: &String, typed: &String, edited: bool) -> (r: (String, bool))
    ensures
        r.1 == (edited && typed@ != key@),
        r.0@ == (if r.1 {
            typed@
        } else {
            key@
        }),
{
    if edited && *typed != *key {
        (typed.clone(), true)
    } else {
        (key.clone(), false)
    }
}

/// The key the `-` button of a map editor removes: the last of the keys in
/// the order they are listed, if there is any.
pub fn key_to_remove(keys: &Vec<String>) -> (r: Option<String>)
    ensures
        keys@.len() == 0 ==> r is None,
        keys@.len() > 0 ==> (r matches Some(k) && k@ == keys@.last()@),
{
    let n = keys.len();
    if n == 0 {
        None
    } else {
        Some(keys[n - 1].clone())
    }
}

/// What the `+` and `-` buttons under a list editor do this frame.
pub struct ListButtonActions {
    /// Append a new item.
    pub push: bool,
    /// Remove the last item, if there is one.
    pub pop: bool,
    /// The list changes.
    pub changed: bool,
}

/// A list holding `len` items can take one more: always when it has no
/// capacity, otherwise while it is below its capacity.
pub open spec fn can_grow(len: nat, capacity: Option<usize>) -> bool {
    match capacity {
        Some(c) => len < c,
        None => true,
    }
}

/// Whether the `+` button under a list editor is enabled.
pub fn add_allowed(len: usize, capacity: Option<usize>) -> (r: bool)
    ensures
        r == can_grow(len as nat, capacity),
        capacity matches Some(c) ==> r == (len < c),
        capacity is None ==> r,
{
    match capacity {
        Some(c) => len < c,
        None => true,
    }
}

/// What the `+` and `-` buttons under a list of `len` items (of the given
/// capacity, if any) do when clicked: `+` appends an item when the list can
/// take one, then `-` removes the last item; the list changes when an item
/// is appended or an item is there to remove.
pub fn list_button_actions(
    len: usize,
    capacity: Option<usize>,
    add_clicked: bool,
    remove_clicked: bool,
) -> (a: ListButtonActions)
    ensures
        a.push == (add_clicked && can_grow(len as nat, capacity)),
        capacity matches Some(c) ==> a.push == (add_clicked && len < c),
        capacity is None ==> a.push == add_clicked,
        a.pop == remove_clicked,
        a.changed == (a.push || (remove_clicked && len > 0)),
{
    let push = add_clicked && add_allowed(len, capacity);
    ListButtonActions { push, pop: remove_clicked, changed: push || (remove_clicked && len > 0) }
}

/// The title of a collection editor: the label, then the number of items
/// in brackets (`Items [3]`).
pub fn collection_header(label: &str, len: usize) -> (r: String)
    ensures
        r@ == label@ + " ["@ + decimal(len as nat) + "]"@,
{
    let mut r = label.to_owned();
    r.push(' ');
    r.push('[');
    push_decimal(&mut r, len);
    r.push(']');
    proof {
        reveal_strlit(" [");
        reveal_strlit("]");
    }
    assert(r@ =~= label@ + " ["@ + decimal(len as nat) + "]"@);
    r
}

/// The label of the item at `index` in a collection editor: `Item <index>`.
pub fn item_label(index: usize) -> (r: String)
    ensures
        r@ == "Item "@ + decimal(index as nat),
{
    let mut r = "Item ".to_owned();
    push_decimal(&mut r, index);
    r
}

/// Items at different positions of a collection editor get different labels.
pub proof fn lemma_item_labels_distinct(a: nat, b: nat)
    ensures
        a != b ==> "Item "@ + decimal(a) != "Item "@ + decimal(b),
{
    reveal_strlit("Item ");
    if "Item "@ + decimal(a) == "Item "@ + decimal(b) {
        assert(("Item "@ + decimal(a)).skip(5) =~= decimal(a));
        assert(("Item "@ + decimal(b)).skip(5) =~= decimal(b));
        lemma_decimal_injective(a, b);
    }
}

/// The `+` and `-` buttons under a list editor: `+` appends a value made by
/// `make`, then `-` removes the last item, if there is one. Returns whether
/// the list changed.
pub fn apply_list_buttons<T, F: FnOnce() -> T>(
    items: &mut Vec<T>,
    add: bool,
    remove: bool,
    make: F,
) -> (changed: bool)
    requires
        add ==> call_requires(make, ()),
    ensures
        changed == (add || (remove && old(items)@.len() > 0)),
        add && !remove ==> {
            &&& final(items)@.len() == old(items)@.len() + 1
            &&& final(items)@.drop_last() == old(items)@
            &&& call_ensures(make, (), final(items)@.last())
        },
        add && remove ==> final(items)@ == old(items)@,
        !add && remove && old(items)@.len() > 0 ==> final(items)@ == old(items)@.drop_last(),
        !add && (!remove || old(items)@.len() == 0) ==> final(items)@ == old(items)@,
{
    let mut changed = false;
    if add {
        items.push(make());
        changed = true;
    }
    if remove {
        if items.pop().is_some() {
            changed = true;
        }
    }
    proof {
        if add && !remove {
            assert(items@.drop_last() =~= old(items)@);
        }
        if add && remove {
            assert(items@ =~= old(items)@);
        }
    }
    changed
}

/// A filter of the file dialog: a name and the extensions it lets through.
pub struct DialogFilter {
    pub name: String,
    pub extensions: Vec<String>,
}

/// The string holding the characters `chars`.
fn string_from_chars(chars: &Vec<char>) -> (s: String)
    ensures
        s@ == chars@,
{
    let mut s = String::new();
    push_chars(&mut s, chars);
    s
}

/// The filters the file dialog of a path editor gets from the `file`
/// attribute: one per given filter, named by it and letting through the
/// comma-separated extensions it lists; then, when any filter is given, an
/// `All Files` filter for `*.*`.
pub fn file_dialog_filters(filters: &Vec<String>) -> (r: Vec<DialogFilter>)
    ensures
        r@.len() == filters@.len() + (if filters@.len() > 0 {
            1int
        } else {
            0int
        }),
        forall|k: int|
            0 <= k < filters@.len() ==> {
                &&& (#[trigger] r@[k]).name@ == filters@[k]@
                &&& r@[k].extensions@.len() == split_parts(filters@[k]@, ',').len()
                &&& forall|e: int|
                    0 <= e < r@[k].extensions@.len() ==> #[trigger] r@[k].extensions@[e]@
                        == split_parts(filters@[k]@, ',')[e]
            },
        filters@.len() > 0 ==> {
            &&& r@.last().name@ == "All Files"@
            &&& r@.last().extensions@.len() == 1
            &&& r@.last().extensions@[0]@ == "*.*"@
        },
{
    let n = filters.len();
    let mut r: Vec<DialogFilter> = Vec::new();
    for k in 0..n
        invariant
            n == filters@.len(),
            r@.len() == k,
            forall|i: int|
                0 <= i < k ==> {
                    &&& (#[trigger] r@[i]).name@ == filters@[i]@
                    &&& r@[i].extensions@.len() == split_parts(filters@[i]@, ',').len()
                    &&& forall|e: int|
                        0 <= e < r@[i].extensions@.len() ==> #[trigger] r@[i].extensions@[e]@
                            == split_parts(filters@[i]@, ',')[e]
                },
    {
        let f = &filters[k];
        let chars = chars_of(f.as_str());
        let parts = split_chars(&chars, ',');
        let m = parts.len();
        let mut extensions: Vec<String> = Vec::new();
        for e in 0..m
            invariant
                m == parts@.len(),
                chars@ == filters@[k as int]@,
                parts@.len() == split_parts(chars@, ',').len(),
                forall|j: int| 0 <= j < parts@.len() ==> #[trigger] parts@[j]@ == split_parts(chars@, ',')[j],
                extensions@.len() == e,
                forall|j: int| 0 <= j < e ==> #[trigger] extensions@[j]@ == split_parts(chars@, ',')[j],
        {
            extensions.push(string_from_chars(&parts[e]));
        }
        r.push(DialogFilter { name: f.clone(), extensions });
    }
    if n > 0 {
        let mut all: Vec<String> = Vec::new();
        all.push("*.*".to_owned());
        r.push(DialogFilter { name: "All Files".to_owned(), extensions: all });
    }
    r
}

} // verus!
