//! The data model: option value types, UI categories, schema entries, and
//! the structure-preserving user config document.

use vstd::prelude::*;

use crate::chars::str_eq;
use vstd::string::StringExecFns;

verus! {

/// Mathematical model of a `ConfigValueType`: the same shape, with
/// character sequences in place of strings.
pub enum ValueTypeModel {
    Boolean,
    Integer,
    Float,
    Color,
    Enum(Seq<Seq<char>>),
    Text,
    Font,
    Path,
    Keybind,
    Palette,
    CommaSeparated(Box<ValueTypeModel>),
}

/// The kind of value a config option accepts.
pub enum ConfigValueType {
    Boolean,
    Integer,
    Float,
    Color,
    Enum(Vec<String>),
    Text,
    Font,
    Path,
    Keybind,
    Palette,
    CommaSeparated(Box<ConfigValueType>),
}

/// The model of a value type: each carried string as its characters.
pub open spec fn vt_model(t: ConfigValueType) -> ValueTypeModel
    decreases t,
{
    match t {
        ConfigValueType::Boolean => ValueTypeModel::Boolean,
        ConfigValueType::Integer => ValueTypeModel::Integer,
        ConfigValueType::Float => ValueTypeModel::Float,
        ConfigValueType::Color => ValueTypeModel::Color,
        ConfigValueType::Enum(vs) => ValueTypeModel::Enum(vs@.map_values(|v: String| v@)),
        ConfigValueType::Text => ValueTypeModel::Text,
        ConfigValueType::Font => ValueTypeModel::Font,
        ConfigValueType::Path => ValueTypeModel::Path,
        ConfigValueType::Keybind => ValueTypeModel::Keybind,
        ConfigValueType::Palette => ValueTypeModel::Palette,
        ConfigValueType::CommaSeparated(inner) => ValueTypeModel::CommaSeparated(
            Box::new(vt_model(*inner)),
        ),
    }
}

impl View for ConfigValueType {
    type V = ValueTypeModel;

    open spec fn view(&self) -> ValueTypeModel {
        vt_model(*self)
    }
}

/// The short label of each value type, as shown in the UI.
pub open spec fn spec_type_label(t: ValueTypeModel) -> Seq<char> {
    match t {
        ValueTypeModel::Boolean => "boolean"@,
        ValueTypeModel::Integer => "integer"@,
        ValueTypeModel::Float => "float"@,
        ValueTypeModel::Color => "color"@,
        ValueTypeModel::Enum(_) => "enum"@,
        ValueTypeModel::Text => "text"@,
        ValueTypeModel::Font => "font"@,
        ValueTypeModel::Path => "path"@,
        ValueTypeModel::Keybind => "keybind"@,
        ValueTypeModel::Palette => "palette"@,
        ValueTypeModel::CommaSeparated(_) => "comma-separated"@,
    }
}

impl ConfigValueType {
    /// The short label of this value type, as shown in the UI.
    pub fn label(&self) -> (r: &'static str)
        ensures
            r@ == spec_type_label(self@),
    {
        match self {
            ConfigValueType::Boolean => "boolean",
            ConfigValueType::Integer => "integer",
            ConfigValueType::Float => "float",
            ConfigValueType::Color => "color",
            ConfigValueType::Enum(_) => "enum",
            ConfigValueType::Text => "text",
            ConfigValueType::Font => "font",
            ConfigValueType::Path => "path",
            ConfigValueType::Keybind => "keybind",
            ConfigValueType::Palette => "palette",
            ConfigValueType::CommaSeparated(_) => "comma-separated",
        }
    }
}

/// UI category for grouping config options.
#[derive(Debug, Clone, Copy, PartialEq, Eq, Hash, Structural)]
pub enum Category {
    Fonts,
    Colors,
    Window,
    Cursor,
    Mouse,
    Clipboard,
    Keybindings,
    Shell,
    Appearance,
    Background,
    MacOS,
    GTKLinux,
    Scrollback,
    Input,
    Terminal,
    Advanced,
}

/// Every category, in display order.
pub open spec fn spec_all_categories() -> Seq<Category> {
    seq![
        Category::Fonts,
        Category::Colors,
        Category::Window,
        Category::Cursor,
        Category::Mouse,
        Category::Clipboard,
        Category::Keybindings,
        Category::Shell,
        Category::Appearance,
        Category::Background,
        Category::MacOS,
        Category::GTKLinux,
        Category::Scrollback,
        Category::Input,
        Category::Terminal,
        Category::Advanced,
    ]
}

/// The URL-safe identifier of each category.
pub open spec fn spec_slug(c: Category) -> Seq<char> {
    match c {
        Category::Fonts => "fonts"@,
        Category::Colors => "colors"@,
        Category::Window => "window"@,
        Category::Cursor => "cursor"@,
        Category::Mouse => "mouse"@,
        Category::Clipboard => "clipboard"@,
        Category::Keybindings => "keybindings"@,
        Category::Shell => "shell"@,
        Category::Appearance => "appearance"@,
        Category::Background => "background"@,
        Category::MacOS => "macos"@,
        Category::GTKLinux => "gtk-linux"@,
        Category::Scrollback => "scrollback"@,
        Category::Input => "input"@,
        Category::Terminal => "terminal"@,
        Category::Advanced => "advanced"@,
    }
}

/// The display name of each category.
pub open spec fn spec_display_name(c: Category) -> Seq<char> {
    match c {
        Category::Fonts => "Fonts"@,
        Category::Colors => "Colors"@,
        Category::Window => "Window"@,
        Category::Cursor => "Cursor"@,
        Category::Mouse => "Mouse"@,
        Category::Clipboard => "Clipboard"@,
        Category::Keybindings => "Keybindings"@,
        Category::Shell => "Shell"@,
        Category::Appearance => "Appearance"@,
        Category::Background => "Background"@,
        Category::MacOS => "macOS"@,
        Category::GTKLinux => "GTK / Linux"@,
        Category::Scrollback => "Scrollback"@,
        Category::Input => "Input"@,
        Category::Terminal => "Terminal"@,
        Category::Advanced => "Advanced"@,
    }
}

impl Category {
    /// Every category, in display order.
    pub fn all() -> (r: Vec<Category>)
        ensures
            r@ == spec_all_categories(),
    {
        let mut r: Vec<Category> = Vec::new();
        r.push(Category::Fonts);
        r.push(Category::Colors);
        r.push(Category::Window);
        r.push(Category::Cursor);
        r.push(Category::Mouse);
        r.push(Category::Clipboard);
        r.push(Category::Keybindings);
        r.push(Category::Shell);
        r.push(Category::Appearance);
        r.push(Category::Background);
        r.push(Category::MacOS);
        r.push(Category::GTKLinux);
        r.push(Category::Scrollback);
        r.push(Category::Input);
        r.push(Category::Terminal);
        r.push(Category::Advanced);
        proof {
            assert(r@ =~= spec_all_categories());
        }
        r
    }

    /// The URL-safe identifier of this category.
    pub fn slug(&self) -> (r: &'static str)
        ensures
            r@ == spec_slug(*self),
    {
        match self {
            Category::Fonts => "fonts",
            Category::Colors => "colors",
            Category::Window => "window",
            Category::Cursor => "cursor",
            Category::Mouse => "mouse",
            Category::Clipboard => "clipboard",
            Category::Keybindings => "keybindings",
            Category::Shell => "shell",
            Category::Appearance => "appearance",
            Category::Background => "background",
            Category::MacOS => "macos",
            Category::GTKLinux => "gtk-linux",
            Category::Scrollback => "scrollback",
            Category::Input => "input",
            Category::Terminal => "terminal",
            Category::Advanced => "advanced",
        }
    }

    /// The display name of this category.
    pub fn display_name(&self) -> (r: &'static str)
        ensures
            r@ == spec_display_name(*self),
    {
        match self {
            Category::Fonts => "Fonts",
            Category::Colors => "Colors",
            Category::Window => "Window",
            Category::Cursor => "Cursor",
            Category::Mouse => "Mouse",
            Category::Clipboard => "Clipboard",
            Category::Keybindings => "Keybindings",
            Category::Shell => "Shell",
            Category::Appearance => "Appearance",
            Category::Background => "Background",
            Category::MacOS => "macOS",
            Category::GTKLinux => "GTK / Linux",
            Category::Scrollback => "Scrollback",
            Category::Input => "Input",
            Category::Terminal => "Terminal",
            Category::Advanced => "Advanced",
        }
    }

    /// The glyph shown beside this category; always non-empty.
    pub fn icon(&self) -> (r: &'static str)
        ensures
            r@.len() > 0,
    {
        let r: &'static str = match self {
            Category::Fonts => "Aa",
            Category::Colors => "\u{1f3a8}",
            Category::Window => "\u{25a1}",
            Category::Cursor => "\u{258d}",
            Category::Mouse => "\u{1f5b1}",
            Category::Clipboard => "\u{1f4cb}",
            Category::Keybindings => "\u{2328}",
            Category::Shell => ">_",
            Category::Appearance => "\u{2728}",
            Category::Background => "\u{1f5bc}",
            Category::MacOS => "\u{1f34e}",
            Category::GTKLinux => "\u{1f427}",
            Category::Scrollback => "\u{2195}",
            Category::Input => "\u{270f}",
            Category::Terminal => "\u{1f4df}",
            Category::Advanced => "\u{2699}",
        };
        proof {
            reveal_strlit("Aa");
            reveal_strlit("\u{1f3a8}");
            reveal_strlit("\u{25a1}");
            reveal_strlit("\u{258d}");
            reveal_strlit("\u{1f5b1}");
            reveal_strlit("\u{1f4cb}");
            reveal_strlit("\u{2328}");
            reveal_strlit(">_");
            reveal_strlit("\u{2728}");
            reveal_strlit("\u{1f5bc}");
            reveal_strlit("\u{1f34e}");
            reveal_strlit("\u{1f427}");
            reveal_strlit("\u{2195}");
            reveal_strlit("\u{270f}");
            reveal_strlit("\u{1f4df}");
            reveal_strlit("\u{2699}");
        }
        r
    }
}

/// Mathematical model of one schema entry.
pub struct OptionModel {
    pub key: Seq<char>,
    pub default_value: Seq<char>,
    pub documentation: Seq<char>,
    pub value_type: ValueTypeModel,
    pub category: Category,
    pub is_repeatable: bool,
}

/// One schema entry: a key, its default, documentation, inferred value
/// type, UI category, and whether the key may legitimately repeat.
pub struct ConfigOption {
    pub key: String,
    pub default_value: String,
    pub documentation: String,
    pub value_type: ConfigValueType,
    pub category: Category,
    pub is_repeatable: bool,
}

impl View for ConfigOption {
    type V = OptionModel;

    open spec fn view(&self) -> OptionModel {
        OptionModel {
            key: self.key@,
            default_value: self.default_value@,
            documentation: self.documentation@,
            value_type: self.value_type@,
            category: self.category,
            is_repeatable: self.is_repeatable,
        }
    }
}

/// The first schema entry with key `k`, if any.
pub open spec fn find_opt(s: Seq<OptionModel>, k: Seq<char>) -> Option<OptionModel>
    decreases s.len(),
{
    if s.len() == 0 {
        None
    } else if s[0].key == k {
        Some(s[0])
    } else {
        find_opt(s.drop_first(), k)
    }
}

/// The full schema of discovered config options.
pub struct ConfigSchema {
    pub options: Vec<ConfigOption>,
}

impl View for ConfigSchema {
    type V = Seq<OptionModel>;

    open spec fn view(&self) -> Seq<OptionModel> {
        self.options@.map_values(|o: ConfigOption| o@)
    }
}

impl ConfigSchema {
    /// The options of category `cat`, in schema order.
    pub fn options_for_category(&self, cat: &Category) -> (r: Vec<&ConfigOption>)
        ensures
            r@.map_values(|o: &ConfigOption| o@) == self@.filter(
                |o: OptionModel| o.category == cat,
            ),
    {
        let ghost pred = |o: OptionModel| o.category == cat;
        let mut r: Vec<&ConfigOption> = Vec::new();
        let mut i: usize = 0;
        proof {
            reveal(Seq::filter);
            assert(self@.take(0) =~= Seq::<OptionModel>::empty());
            assert(r@.map_values(|o: &ConfigOption| o@) =~= self@.take(0).filter(pred));
        }
        while i < self.options.len()
            invariant
                i <= self.options@.len(),
                self@.len() == self.options@.len(),
                r@.map_values(|o: &ConfigOption| o@) == self@.take(i as int).filter(pred),
                pred == (|o: OptionModel| o.category == cat),
            decreases self.options@.len() - i,
        {
            let ghost prev = r@;
            let o = &self.options[i];
            if o.category == *cat {
                r.push(o);
            }
            proof {
                reveal(Seq::filter);
                assert(self@.take(i + 1).drop_last() =~= self@.take(i as int));
                assert(self@.take(i + 1).last() == self@[i as int]);
                assert(self@[i as int] == self.options@[i as int]@);
                if pred(self@[i as int]) {
                    assert(r@.map_values(|o: &ConfigOption| o@) =~= prev.map_values(
                        |o: &ConfigOption| o@,
                    ).push(self@[i as int]));
                }
                assert(r@.map_values(|o: &ConfigOption| o@) =~= self@.take(i + 1).filter(pred));
            }
            i = i + 1;
        }
        proof {
            assert(self@.take(self@.len() as int) =~= self@);
        }
        r
    }

    /// The first option with key `key`, if any.
    pub fn find_option(&self, key: &str) -> (r: Option<&ConfigOption>)
        ensures
            match r {
                Some(o) => find_opt(self@, key@) == Some(o@),
                None => find_opt(self@, key@) is None,
            },
    {
        let mut i: usize = 0;
        proof {
            assert(self@.skip(0) =~= self@);
        }
        while i < self.options.len()
            invariant
                i <= self.options@.len(),
                self@.len() == self.options@.len(),
                find_opt(self@, key@) == find_opt(self@.skip(i as int), key@),
            decreases self.options@.len() - i,
        {
            proof {
                assert(self@[i as int] == self.options@[i as int]@);
                assert(self@.skip(i as int)[0] == self@[i as int]);
                assert(self@.skip(i as int).drop_first() =~= self@.skip(i + 1));
            }
            let o = &self.options[i];
            if str_eq(o.key.as_str(), key) {
                return Some(o);
            }
            i = i + 1;
        }
        proof {
            assert(self@.skip(self@.len() as int) =~= Seq::<OptionModel>::empty());
        }
        None
    }
}

/// Mathematical model of one line of the user's config file.
pub enum EntryModel {
    Comment(Seq<char>),
    Blank,
    KeyValue(Seq<char>, Seq<char>),
}

/// One physical line of the user's config file. Order is significant and
/// is preserved exactly as read, duplicate keys included.
pub enum ConfigEntry {
    Comment(String),
    BlankLine,
    KeyValue { key: String, value: String },
}

impl View for ConfigEntry {
    type V = EntryModel;

    open spec fn view(&self) -> EntryModel {
        match self {
            ConfigEntry::Comment(text) => EntryModel::Comment(text@),
            ConfigEntry::BlankLine => EntryModel::Blank,
            ConfigEntry::KeyValue { key, value } => EntryModel::KeyValue(key@, value@),
        }
    }
}

/// Whether `e` is a key-value entry for key `k`.
pub open spec fn entry_is_kv(e: EntryModel, k: Seq<char>) -> bool {
    match e {
        EntryModel::KeyValue(k2, _) => k2 == k,
        _ => false,
    }
}

/// The value of a key-value entry; the empty sequence for the others.
pub open spec fn entry_value(e: EntryModel) -> Seq<char> {
    match e {
        EntryModel::KeyValue(_, v) => v,
        _ => Seq::empty(),
    }
}

/// The value of the last entry for key `k`, if any: the document's
/// last-write-wins lookup.
pub open spec fn last_value_of(s: Seq<EntryModel>, k: Seq<char>) -> Option<Seq<char>>
    decreases s.len(),
{
    if s.len() == 0 {
        None
    } else if entry_is_kv(s.last(), k) {
        Some(entry_value(s.last()))
    } else {
        last_value_of(s.drop_last(), k)
    }
}

/// The values of every entry for key `k`, in document order.
pub open spec fn all_values_of(s: Seq<EntryModel>, k: Seq<char>) -> Seq<Seq<char>>
    decreases s.len(),
{
    if s.len() == 0 {
        Seq::empty()
    } else if entry_is_kv(s.last(), k) {
        all_values_of(s.drop_last(), k).push(entry_value(s.last()))
    } else {
        all_values_of(s.drop_last(), k)
    }
}

/// The key and value of every key-value entry, in document order.
pub open spec fn pairs_of(s: Seq<EntryModel>) -> Seq<(Seq<char>, Seq<char>)>
    decreases s.len(),
{
    if s.len() == 0 {
        Seq::empty()
    } else {
        match s.last() {
            EntryModel::KeyValue(k, v) => pairs_of(s.drop_last()).push((k, v)),
            _ => pairs_of(s.drop_last()),
        }
    }
}

/// Index of the first key-value entry for `k`, or `s.len()` if none.
pub open spec fn first_kv_index(s: Seq<EntryModel>, k: Seq<char>) -> nat
    decreases s.len(),
{
    if s.len() == 0 {
        0
    } else if entry_is_kv(s[0], k) {
        0
    } else {
        (1 + first_kv_index(s.drop_first(), k)) as nat
    }
}

/// The document after `set(k, v)`: the first entry for `k` updated in
/// place if one exists, otherwise a new entry appended at the end.
pub open spec fn spec_set(s: Seq<EntryModel>, k: Seq<char>, v: Seq<char>) -> Seq<EntryModel> {
    let i = first_kv_index(s, k);
    if i < s.len() {
        s.update(i as int, EntryModel::KeyValue(k, v))
    } else {
        s.push(EntryModel::KeyValue(k, v))
    }
}

/// The first index at which a scan finds an entry for `k` is what
/// `first_kv_index` returns.
pub proof fn lemma_first_kv_at(s: Seq<EntryModel>, k: Seq<char>, j: int)
    requires
        0 <= j <= s.len(),
        forall|m: int| 0 <= m < j ==> !entry_is_kv(s[m], k),
        j < s.len() ==> entry_is_kv(s[j], k),
    ensures
        first_kv_index(s, k) == j,
    decreases j,
{
    if j > 0 {
        let t = s.drop_first();
        assert(forall|m: int| 0 <= m < j - 1 ==> t[m] == s[m + 1]);
        lemma_first_kv_at(t, k, j - 1);
    }
}

pub proof fn lemma_first_kv_bounds(s: Seq<EntryModel>, k: Seq<char>)
    ensures
        first_kv_index(s, k) <= s.len(),
        first_kv_index(s, k) < s.len() ==> entry_is_kv(s[first_kv_index(s, k) as int], k),
        forall|m: int| 0 <= m < first_kv_index(s, k) ==> !entry_is_kv(s[m], k),
    decreases s.len(),
{
    if s.len() > 0 && !entry_is_kv(s[0], k) {
        lemma_first_kv_bounds(s.drop_first(), k);
        assert forall|m: int| 0 <= m < first_kv_index(s, k) implies !entry_is_kv(s[m], k) by {
            if m > 0 {
                assert(s.drop_first()[m - 1] == s[m]);
            }
        }
    }
}

/// Law: `set(k, v)` is idempotent. Setting the same key to the same
/// value a second time leaves the document exactly as one `set` left it.
pub proof fn lemma_set_idempotent(s: Seq<EntryModel>, k: Seq<char>, v: Seq<char>)
    ensures
        spec_set(spec_set(s, k, v), k, v) == spec_set(s, k, v),
{
    let i = first_kv_index(s, k);
    lemma_first_kv_bounds(s, k);
    let kv = EntryModel::KeyValue(k, v);
    if i < s.len() {
        let s1 = s.update(i as int, kv);
        assert(forall|m: int| 0 <= m < i ==> s1[m] == s[m]);
        assert(entry_is_kv(s1[i as int], k));
        lemma_first_kv_at(s1, k, i as int);
        assert(s1.update(i as int, kv) =~= s1);
    } else {
        let s1 = s.push(kv);
        assert(forall|m: int| 0 <= m < s.len() ==> s1[m] == s[m]);
        lemma_first_kv_at(s1, k, s.len() as int);
        assert(s1.update(s.len() as int, kv) =~= s1);
    }
}

/// Law: removal is total. After every entry for `k` is removed, the
/// last-write-wins lookup for `k` finds nothing, however often the key
/// occurred.
pub proof fn lemma_remove_total(s: Seq<EntryModel>, k: Seq<char>)
    ensures
        last_value_of(s.filter(|e: EntryModel| !entry_is_kv(e, k)), k) is None,
    decreases s.len(),
{
    reveal(Seq::filter);
    let pred = |e: EntryModel| !entry_is_kv(e, k);
    if s.len() > 0 {
        lemma_remove_total(s.drop_last(), k);
        let rest = s.drop_last().filter(pred);
        if pred(s.last()) {
            assert(s.filter(pred) == rest.push(s.last()));
            assert(s.filter(pred).drop_last() =~= rest);
            assert(s.filter(pred).last() == s.last());
        }
    }
}

/// Law: removal keeps every other key's entries, in their original
/// order and with their original values.
pub proof fn lemma_remove_preserves_others(s: Seq<EntryModel>, k: Seq<char>, k2: Seq<char>)
    requires
        k2 != k,
    ensures
        all_values_of(s.filter(|e: EntryModel| !entry_is_kv(e, k)), k2) == all_values_of(s, k2),
    decreases s.len(),
{
    reveal(Seq::filter);
    let pred = |e: EntryModel| !entry_is_kv(e, k);
    if s.len() > 0 {
        lemma_remove_preserves_others(s.drop_last(), k, k2);
        let rest = s.drop_last().filter(pred);
        if pred(s.last()) {
            assert(s.filter(pred) == rest.push(s.last()));
            assert(s.filter(pred).drop_last() =~= rest);
            assert(s.filter(pred).last() == s.last());
        } else {
            assert(!entry_is_kv(s.last(), k2));
        }
    }
}

/// The user's config file: an ordered sequence of entries plus the
/// backing file path. Comments, blank lines and duplicate keys survive
/// round trips through editing.
pub struct UserConfig {
    pub entries: Vec<ConfigEntry>,
    pub file_path: String,
}

impl View for UserConfig {
    type V = Seq<EntryModel>;

    open spec fn view(&self) -> Seq<EntryModel> {
        self.entries@.map_values(|e: ConfigEntry| e@)
    }
}

/// A copy of `e` with the same text.
fn entry_clone(e: &ConfigEntry) -> (r: ConfigEntry)
    ensures
        r@ == e@,
{
    match e {
        ConfigEntry::Comment(text) => ConfigEntry::Comment(text.clone()),
        ConfigEntry::BlankLine => ConfigEntry::BlankLine,
        ConfigEntry::KeyValue { key, value } => ConfigEntry::KeyValue {
            key: key.clone(),
            value: value.clone(),
        },
    }
}

impl UserConfig {
    /// An empty document backed by `file_path`.
    pub fn new(file_path: String) -> (r: UserConfig)
        ensures
            r@ == Seq::<EntryModel>::empty(),
            r.file_path == file_path,
    {
        let r = UserConfig { entries: Vec::new(), file_path };
        proof {
            assert(r@ =~= Seq::<EntryModel>::empty());
        }
        r
    }

    /// The value for `key`: the last matching entry wins.
    pub fn get(&self, key: &str) -> (r: Option<&str>)
        ensures
            match r {
                Some(v) => last_value_of(self@, key@) == Some(v@),
                None => last_value_of(self@, key@) is None,
            },
    {
        let mut i: usize = self.entries.len();
        proof {
            assert(self@.take(self@.len() as int) =~= self@);
        }
        while i > 0
            invariant
                i <= self.entries@.len(),
                self@.len() == self.entries@.len(),
                last_value_of(self@, key@) == last_value_of(self@.take(i as int), key@),
            decreases i,
        {
            i = i - 1;
            proof {
                assert(self@[i as int] == self.entries@[i as int]@);
                assert(self@.take(i + 1).last() == self@[i as int]);
                assert(self@.take(i + 1).drop_last() =~= self@.take(i as int));
            }
            match &self.entries[i] {
                ConfigEntry::KeyValue { key: k, value } => {
                    if str_eq(k.as_str(), key) {
                        return Some(value.as_str());
                    }
                },
                _ => {},
            }
        }
        proof {
            assert(self@.take(0) =~= Seq::<EntryModel>::empty());
        }
        None
    }

    /// All values for `key`, in document order.
    pub fn get_all(&self, key: &str) -> (r: Vec<&str>)
        ensures
            r@.map_values(|v: &str| v@) == all_values_of(self@, key@),
    {
        let mut r: Vec<&str> = Vec::new();
        let mut i: usize = 0;
        proof {
            assert(self@.take(0) =~= Seq::<EntryModel>::empty());
        }
        while i < self.entries.len()
            invariant
                i <= self.entries@.len(),
                self@.len() == self.entries@.len(),
                r@.map_values(|v: &str| v@) == all_values_of(self@.take(i as int), key@),
            decreases self.entries@.len() - i,
        {
            proof {
                assert(self@[i as int] == self.entries@[i as int]@);
                assert(self@.take(i + 1).last() == self@[i as int]);
                assert(self@.take(i + 1).drop_last() =~= self@.take(i as int));
            }
            match &self.entries[i] {
                ConfigEntry::KeyValue { key: k, value } => {
                    if str_eq(k.as_str(), key) {
                        r.push(value.as_str());
                        proof {
                            assert(r@.map_values(|v: &str| v@) =~= r@.drop_last().map_values(
                                |v: &str| v@,
                            ).push(value@));
                        }
                    }
                },
                _ => {},
            }
            i = i + 1;
        }
        proof {
            assert(self@.take(self@.len() as int) =~= self@);
        }
        r
    }

    /// Sets `key` to `value`: updates the first existing entry for the
    /// key in place, or appends a new entry at the end. Duplicates are
    /// never removed.
    pub fn set(&mut self, key: &str, value: &str)
        ensures
            final(self)@ == spec_set(old(self)@, key@, value@),
            final(self).file_path == old(self).file_path,
    {
        let n: usize = self.entries.len();
        let mut i: usize = 0;
        while i < n
            invariant
                i <= n,
                n == self.entries@.len(),
                *self == *old(self),
                forall|m: int| 0 <= m < i ==> !entry_is_kv(self@[m], key@),
            decreases n - i,
        {
            proof {
                assert(self@[i as int] == self.entries@[i as int]@);
            }
            let hit = match &self.entries[i] {
                ConfigEntry::KeyValue { key: k, value: _ } => str_eq(k.as_str(), key),
                _ => false,
            };
            if hit {
                proof {
                    lemma_first_kv_at(self@, key@, i as int);
                }
                self.entries.set(
                    i,
                    ConfigEntry::KeyValue { key: key.to_owned(), value: value.to_owned() },
                );
                proof {
                    assert(self@ =~= old(self)@.update(
                        i as int,
                        EntryModel::KeyValue(key@, value@),
                    ));
                }
                return ;
            }
            i = i + 1;
        }
        proof {
            lemma_first_kv_at(self@, key@, n as int);
        }
        self.entries.push(ConfigEntry::KeyValue { key: key.to_owned(), value: value.to_owned() });
        proof {
            assert(self@ =~= old(self)@.push(EntryModel::KeyValue(key@, value@)));
        }
    }

    /// Removes every entry for `key`, leaving all other entries in their
    /// original order.
    pub fn remove(&mut self, key: &str)
        ensures
            final(self)@ == old(self)@.filter(|e: EntryModel| !entry_is_kv(e, key@)),
            final(self).file_path == old(self).file_path,
    {
        let ghost pred = |e: EntryModel| !entry_is_kv(e, key@);
        let mut kept: Vec<ConfigEntry> = Vec::new();
        let mut i: usize = 0;
        proof {
            reveal(Seq::filter);
            assert(self@.take(0) =~= Seq::<EntryModel>::empty());
            assert(kept@.map_values(|e: ConfigEntry| e@) =~= self@.take(0).filter(pred));
        }
        while i < self.entries.len()
            invariant
                i <= self.entries@.len(),
                self@.len() == self.entries@.len(),
                *self == *old(self),
                pred == (|e: EntryModel| !entry_is_kv(e, key@)),
                kept@.map_values(|e: ConfigEntry| e@) == self@.take(i as int).filter(pred),
            decreases self.entries@.len() - i,
        {
            let ghost prev = kept@;
            let drop = match &self.entries[i] {
                ConfigEntry::KeyValue { key: k, value: _ } => str_eq(k.as_str(), key),
                _ => false,
            };
            if !drop {
                let e = entry_clone(&self.entries[i]);
                kept.push(e);
            }
            proof {
                reveal(Seq::filter);
                assert(self@[i as int] == self.entries@[i as int]@);
                assert(self@.take(i + 1).last() == self@[i as int]);
                assert(self@.take(i + 1).drop_last() =~= self@.take(i as int));
                if pred(self@[i as int]) {
                    assert(kept@.map_values(|e: ConfigEntry| e@) =~= prev.map_values(
                        |e: ConfigEntry| e@,
                    ).push(self@[i as int]));
                }
                assert(kept@.map_values(|e: ConfigEntry| e@) =~= self@.take(i + 1).filter(pred));
            }
            i = i + 1;
        }
        proof {
            assert(self@.take(self@.len() as int) =~= self@);
        }
        self.entries = kept;
    }

    /// Every key-value pair currently set, in document order, duplicates
    /// included.
    pub fn all_set_values(&self) -> (r: Vec<(&str, &str)>)
        ensures
            r@.map_values(|p: (&str, &str)| (p.0@, p.1@)) == pairs_of(self@),
    {
        let mut r: Vec<(&str, &str)> = Vec::new();
        let mut i: usize = 0;
        proof {
            assert(self@.take(0) =~= Seq::<EntryModel>::empty());
        }
        while i < self.entries.len()
            invariant
                i <= self.entries@.len(),
                self@.len() == self.entries@.len(),
                r@.map_values(|p: (&str, &str)| (p.0@, p.1@)) == pairs_of(self@.take(i as int)),
            decreases self.entries@.len() - i,
        {
            proof {
                assert(self@[i as int] == self.entries@[i as int]@);
                assert(self@.take(i + 1).last() == self@[i as int]);
                assert(self@.take(i + 1).drop_last() =~= self@.take(i as int));
            }
            match &self.entries[i] {
                ConfigEntry::KeyValue { key, value } => {
                    r.push((key.as_str(), value.as_str()));
                    proof {
                        assert(r@.map_values(|p: (&str, &str)| (p.0@, p.1@))
                            =~= r@.drop_last().map_values(|p: (&str, &str)| (p.0@, p.1@)).push(
                            (key@, value@),
                        ));
                    }
                },
                _ => {},
            }
            i = i + 1;
        }
        proof {
            assert(self@.take(self@.len() as int) =~= self@);
        }
        r
    }
}

/// The value shown for `key`: the document's last value where one is
/// set and non-empty, else the schema default, else the empty string.
pub open spec fn spec_effective_value(
    doc: Seq<EntryModel>,
    schema: Seq<OptionModel>,
    key: Seq<char>,
) -> Seq<char> {
    let current = match last_value_of(doc, key) {
        Some(v) => v,
        None => Seq::empty(),
    };
    if current.len() == 0 {
        match find_opt(schema, key) {
            Some(o) => o.default_value,
            None => Seq::empty(),
        }
    } else {
        current
    }
}

/// The value shown for `key`: the set value where one is set and
/// non-empty, else the schema default.
pub fn effective_value(config: &UserConfig, schema: &ConfigSchema, key: &str) -> (r: String)
    ensures
        r@ == spec_effective_value(config@, schema@, key@),
{
    let current: &str = match config.get(key) {
        Some(v) => v,
        None => "",
    };
    proof {
        reveal_strlit("");
        assert(""@ =~= Seq::<char>::empty());
    }
    if current.is_empty() {
        match schema.find_option(key) {
            Some(o) => o.default_value.clone(),
            None => String::new(),
        }
    } else {
        current.to_owned()
    }
}

/// The document after an edit request for `key` with the trimmed value
/// `v`: entries for the key are removed where `v` is empty or equals
/// the schema default (falling back to the default means no explicit
/// entry), and set to `v` otherwise.
pub open spec fn spec_apply_edit(
    doc: Seq<EntryModel>,
    schema: Seq<OptionModel>,
    key: Seq<char>,
    value: Seq<char>,
) -> Seq<EntryModel> {
    let v = crate::chars::spec_trim(value);
    let is_default = match find_opt(schema, key) {
        Some(o) => o.default_value == v,
        None => false,
    };
    if is_default || v.len() == 0 {
        doc.filter(|e: EntryModel| !entry_is_kv(e, key))
    } else {
        spec_set(doc, key, v)
    }
}

/// Applies an edit request: trims the value, then removes the key where
/// the value is empty or equals the schema default, and sets it
/// otherwise.
pub fn apply_edit(config: &mut UserConfig, schema: &ConfigSchema, key: &str, value: &str)
    ensures
        final(config)@ == spec_apply_edit(old(config)@, schema@, key@, value@),
        final(config).file_path == old(config).file_path,
{
    let vc = crate::chars::chars_of(value);
    let trimmed = crate::chars::trim_chars(vc.as_slice());
    let v = crate::chars::string_of(trimmed.as_slice());
    let is_default: bool = match schema.find_option(key) {
        Some(o) => str_eq(o.default_value.as_str(), v.as_str()),
        None => false,
    };
    if is_default || v.as_str().is_empty() {
        config.remove(key);
    } else {
        config.set(key, v.as_str());
    }
}

/// A keybind entry's value: `trigger=action`, both sides trimmed.
pub open spec fn spec_keybind_value(trigger: Seq<char>, action: Seq<char>) -> Seq<char> {
    crate::chars::spec_trim(trigger) + seq!['='] + crate::chars::spec_trim(action)
}

/// Appends a `keybind` entry for `trigger=action`, both sides trimmed.
/// Nothing is added — and `false` comes back — where either side trims
/// to nothing.
pub fn add_keybind_entry(config: &mut UserConfig, trigger: &str, action: &str) -> (r: bool)
    ensures
        r == (crate::chars::spec_trim(trigger@).len() > 0 && crate::chars::spec_trim(
            action@,
        ).len() > 0),
        r ==> final(config)@ == old(config)@.push(
            EntryModel::KeyValue("keybind"@, spec_keybind_value(trigger@, action@)),
        ),
        !r ==> final(config)@ == old(config)@,
        final(config).file_path == old(config).file_path,
{
    let tc = crate::chars::chars_of(trigger);
    let t = crate::chars::trim_chars(tc.as_slice());
    let ac = crate::chars::chars_of(action);
    let a = crate::chars::trim_chars(ac.as_slice());
    if t.len() == 0 || a.len() == 0 {
        return false;
    }
    let mut value = crate::chars::string_of(t.as_slice());
    crate::chars::push_char(&mut value, '=');
    let astr = crate::chars::string_of(a.as_slice());
    value.append(astr.as_str());
    proof {
        assert(value@ =~= spec_keybind_value(trigger@, action@));
    }
    let ghost vv = value@;
    config.entries.push(ConfigEntry::KeyValue { key: "keybind".to_owned(), value });
    proof {
        assert(config@ =~= old(config)@.push(EntryModel::KeyValue("keybind"@, vv)));
    }
    true
}

/// Removes every `keybind` entry whose value is `trigger=action`, both
/// sides trimmed; everything else keeps its place.
pub fn remove_keybind_entry(config: &mut UserConfig, trigger: &str, action: &str)
    ensures
        final(config)@ == old(config)@.filter(
            |e: EntryModel|
                !(entry_is_kv(e, "keybind"@) && entry_value(e) == spec_keybind_value(
                    trigger@,
                    action@,
                )),
        ),
        final(config).file_path == old(config).file_path,
{
    let ghost pred = |e: EntryModel|
        !(entry_is_kv(e, "keybind"@) && entry_value(e) == spec_keybind_value(trigger@, action@));
    let tc = crate::chars::chars_of(trigger);
    let t = crate::chars::trim_chars(tc.as_slice());
    let ac = crate::chars::chars_of(action);
    let a = crate::chars::trim_chars(ac.as_slice());
    let mut target = crate::chars::string_of(t.as_slice());
    crate::chars::push_char(&mut target, '=');
    let astr = crate::chars::string_of(a.as_slice());
    target.append(astr.as_str());
    proof {
        assert(target@ =~= spec_keybind_value(trigger@, action@));
    }
    let mut kept: Vec<ConfigEntry> = Vec::new();
    let mut i: usize = 0;
    proof {
        reveal(Seq::filter);
        assert(config@.take(0) =~= Seq::<EntryModel>::empty());
        assert(kept@.map_values(|e: ConfigEntry| e@) =~= config@.take(0).filter(pred));
    }
    while i < config.entries.len()
        invariant
            i <= config.entries@.len(),
            config@.len() == config.entries@.len(),
            *config == *old(config),
            target@ == spec_keybind_value(trigger@, action@),
            pred == (|e: EntryModel|
                !(entry_is_kv(e, "keybind"@) && entry_value(e) == spec_keybind_value(
                    trigger@,
                    action@,
                ))),
            kept@.map_values(|e: ConfigEntry| e@) == config@.take(i as int).filter(pred),
        decreases config.entries@.len() - i,
    {
        let ghost prev = kept@;
        let drop = match &config.entries[i] {
            ConfigEntry::KeyValue { key: k, value: v } => str_eq(k.as_str(), "keybind") && str_eq(
                v.as_str(),
                target.as_str(),
            ),
            _ => false,
        };
        if !drop {
            let e = entry_clone(&config.entries[i]);
            kept.push(e);
        }
        proof {
            reveal(Seq::filter);
            assert(config@[i as int] == config.entries@[i as int]@);
            assert(config@.take(i + 1).last() == config@[i as int]);
            assert(config@.take(i + 1).drop_last() =~= config@.take(i as int));
            if pred(config@[i as int]) {
                assert(kept@.map_values(|e: ConfigEntry| e@) =~= prev.map_values(
                    |e: ConfigEntry| e@,
                ).push(config@[i as int]));
            }
            assert(kept@.map_values(|e: ConfigEntry| e@) =~= config@.take(i + 1).filter(pred));
        }
        i = i + 1;
    }
    proof {
        assert(config@.take(config@.len() as int) =~= config@);
    }
    config.entries = kept;
}

/// Info about an installed theme.
pub struct ThemeInfo {
    pub name: String,
    pub background: String,
    pub foreground: String,
    pub palette: Vec<String>,
    pub is_dark: bool,
    pub cursor_color: Option<String>,
    pub selection_background: Option<String>,
}

/// Info about a font family.
pub struct FontFamily {
    pub name: String,
    pub styles: Vec<String>,
}

} // verus!

