use vstd::prelude::*;
use vstd::string::StringExecFns;

verus! {

/// One declaration of the data section: a label, a size directive and the
/// initial values, each kept as the text the assembler will read.
pub struct DataSectionItem {
    name: String,
    size: String,
    values: String,
}

/// The mathematical value of a data item.
pub ghost struct DataEntry {
    pub name: Seq<char>,
    pub size: Seq<char>,
    pub values: Seq<char>,
}

impl View for DataSectionItem {
    type V = DataEntry;

    closed spec fn view(&self) -> DataEntry {
        DataEntry { name: self.name@, size: self.size@, values: self.values@ }
    }
}

/// The data items, in the order they were appended.
pub struct DataSection {
    items: Vec<DataSectionItem>,
}

impl View for DataSection {
    type V = Seq<DataEntry>;

    closed spec fn view(&self) -> Seq<DataEntry> {
        self.items@.map_values(|it: DataSectionItem| it@)
    }
}

impl Default for DataSection {
    fn default() -> (r: Self)
        ensures
            r@ == Seq::<DataEntry>::empty(),
    {
        let r = DataSection { items: Vec::new() };
        assert(r@ =~= Seq::<DataEntry>::empty());
        r
    }
}

impl DataSection {
    pub fn new() -> (r: Self)
        ensures
            r@ == Seq::<DataEntry>::empty(),
    {
        DataSection::default()
    }

    /// Adds one item after all those already there.
    pub fn append(&mut self, name: &str, size: &str, values: &str)
        ensures
            final(self)@ == old(self)@.push(DataEntry { name: name@, size: size@, values: values@ }),
    {
        let item = DataSectionItem {
            name: name.to_owned(),
            size: size.to_owned(),
            values: values.to_owned(),
        };
        let ghost before = self.items@;
        self.items.push(item);
        assert(self@ =~= before.map_values(|it: DataSectionItem| it@).push(item@));
    }
}

/// One line of the text section.
pub enum TextSectionItem {
    Label(String),
    Instruction(String),
}

/// The mathematical value of a text item.
pub ghost enum TextEntry {
    Label(Seq<char>),
    Instruction(Seq<char>),
}

impl View for TextSectionItem {
    type V = TextEntry;

    open spec fn view(&self) -> TextEntry {
        match self {
            TextSectionItem::Label(name) => TextEntry::Label(name@),
            TextSectionItem::Instruction(text) => TextEntry::Instruction(text@),
        }
    }
}

/// The labels and instructions, in the order they were added.
pub struct TextSection {
    items: Vec<TextSectionItem>,
}

impl View for TextSection {
    type V = Seq<TextEntry>;

    closed spec fn view(&self) -> Seq<TextEntry> {
        self.items@.map_values(|it: TextSectionItem| it@)
    }
}

impl Default for TextSection {
    fn default() -> (r: Self)
        ensures
            r@ == Seq::<TextEntry>::empty(),
    {
        let r = TextSection { items: Vec::new() };
        assert(r@ =~= Seq::<TextEntry>::empty());
        r
    }
}

impl TextSection {
    pub fn new() -> (r: Self)
        ensures
            r@ == Seq::<TextEntry>::empty(),
    {
        TextSection::default()
    }

    fn add(&mut self, item: TextSectionItem)
        ensures
            final(self)@ == old(self)@.push(item@),
    {
        let ghost before = self.items@;
        self.items.push(item);
        assert(self@ =~= before.map_values(|it: TextSectionItem| it@).push(item@));
    }

    /// Adds a label after all items already there.
    pub fn label(&mut self, name: &str)
        ensures
            final(self)@ == old(self)@.push(TextEntry::Label(name@)),
    {
        self.add(TextSectionItem::Label(name.to_owned()));
    }

    /// Adds an instruction after all items already there.
    pub fn inst(&mut self, inst: &str)
        ensures
            final(self)@ == old(self)@.push(TextEntry::Instruction(inst@)),
    {
        self.add(TextSectionItem::Instruction(inst.to_owned()));
    }

    /// Moves all items of `other`, in their order, after those of `self`.
    pub fn extend(&mut self, other: TextSection)
        ensures
            final(self)@ == old(self)@ + other@,
    {
        let mut other = other;
        let ghost before = self.items@;
        let ghost moved = other.items@;
        self.items.append(&mut other.items);
        assert(self@ =~= before.map_values(|it: TextSectionItem| it@) + moved.map_values(
            |it: TextSectionItem| it@,
        ));
    }
}

/// A whole assembly module: one data section and one text section.
pub struct Asm {
    pub data: DataSection,
    pub text: TextSection,
}

/// The text that opens every module, up to the first data item.
pub open spec fn module_header() -> Seq<char> {
    "bits 64\nglobal _start\n\nsection .data\n"@
}

/// The text between the last data item and the first text item.
pub open spec fn text_header() -> Seq<char> {
    "\nsection .text\n"@
}

/// How one data item is written: indented, its three parts separated by a space.
pub open spec fn data_line(e: DataEntry) -> Seq<char> {
    "    "@ + e.name + " "@ + e.size + " "@ + e.values + "\n"@
}

/// How one text item is written: a label flush left with a colon, an
/// instruction indented.
pub open spec fn text_line(e: TextEntry) -> Seq<char> {
    match e {
        TextEntry::Label(name) => name + ":\n"@,
        TextEntry::Instruction(text) => "    "@ + text + "\n"@,
    }
}

/// The lines of all data items, in order.
pub open spec fn data_block(items: Seq<DataEntry>) -> Seq<char>
    decreases items.len(),
{
    if items.len() == 0 {
        Seq::empty()
    } else {
        data_block(items.drop_last()) + data_line(items.last())
    }
}

/// The lines of all text items, in order.
pub open spec fn text_block(items: Seq<TextEntry>) -> Seq<char>
    decreases items.len(),
{
    if items.len() == 0 {
        Seq::empty()
    } else {
        text_block(items.drop_last()) + text_line(items.last())
    }
}

/// The whole text of a module with these sections.
pub open spec fn module_text(data: Seq<DataEntry>, text: Seq<TextEntry>) -> Seq<char> {
    module_header() + data_block(data) + text_header() + text_block(text)
}

/// Where the line of data item `k` starts in the module text.
pub open spec fn data_offset(data: Seq<DataEntry>, k: int) -> int {
    (module_header().len() + data_block(data.take(k)).len()) as int
}

/// Where the line of text item `k` starts in the module text.
pub open spec fn text_offset(data: Seq<DataEntry>, text: Seq<TextEntry>, k: int) -> int {
    (module_header().len() + data_block(data).len() + text_header().len() + text_block(
        text.take(k),
    ).len()) as int
}

proof fn lemma_data_block_prefix(items: Seq<DataEntry>, j: int)
    requires
        0 <= j <= items.len(),
    ensures
        data_block(items.take(j)).len() <= data_block(items).len(),
        data_block(items).subrange(0, data_block(items.take(j)).len() as int) == data_block(
            items.take(j),
        ),
    decreases items.len() - j,
{
    if j == items.len() {
        assert(items.take(j) =~= items);
        assert(data_block(items).subrange(0, data_block(items).len() as int) =~= data_block(items));
    } else {
        lemma_data_block_prefix(items, j + 1);
        assert(items.take(j + 1).drop_last() =~= items.take(j));
        let whole = data_block(items);
        let longer = data_block(items.take(j + 1));
        let shorter = data_block(items.take(j));
        assert(longer == shorter + data_line(items[j]));
        assert forall|i: int| 0 <= i < shorter.len() implies whole[i] == shorter[i] by {
            assert(whole.subrange(0, longer.len() as int)[i] == whole[i]);
            assert(longer[i] == shorter[i]);
        }
        assert(whole.subrange(0, shorter.len() as int) =~= shorter);
    }
}

proof fn lemma_text_block_prefix(items: Seq<TextEntry>, j: int)
    requires
        0 <= j <= items.len(),
    ensures
        text_block(items.take(j)).len() <= text_block(items).len(),
        text_block(items).subrange(0, text_block(items.take(j)).len() as int) == text_block(
            items.take(j),
        ),
    decreases items.len() - j,
{
    if j == items.len() {
        assert(items.take(j) =~= items);
        assert(text_block(items).subrange(0, text_block(items).len() as int) =~= text_block(items));
    } else {
        lemma_text_block_prefix(items, j + 1);
        assert(items.take(j + 1).drop_last() =~= items.take(j));
        let whole = text_block(items);
        let longer = text_block(items.take(j + 1));
        let shorter = text_block(items.take(j));
        assert(longer == shorter + text_line(items[j]));
        assert forall|i: int| 0 <= i < shorter.len() implies whole[i] == shorter[i] by {
            assert(whole.subrange(0, longer.len() as int)[i] == whole[i]);
            assert(longer[i] == shorter[i]);
        }
        assert(whole.subrange(0, shorter.len() as int) =~= shorter);
    }
}

/// Rendering keeps every item, in order and apart: cut at the offsets of
/// consecutive items, the module text gives back each data item's line, the
/// text section header, and each text item's line, in the order in which
/// the items were added.
pub proof fn lemma_module_text_splits(data: Seq<DataEntry>, text: Seq<TextEntry>)
    ensures
        module_text(data, text).subrange(0, module_header().len() as int) == module_header(),
        forall|k: int|
            0 <= k < data.len() ==> module_text(data, text).subrange(
                #[trigger] data_offset(data, k),
                data_offset(data, k + 1),
            ) == data_line(data[k]),
        module_text(data, text).subrange(
            data_offset(data, data.len() as int),
            text_offset(data, text, 0),
        ) == text_header(),
        forall|k: int|
            0 <= k < text.len() ==> module_text(data, text).subrange(
                #[trigger] text_offset(data, text, k),
                text_offset(data, text, k + 1),
            ) == text_line(text[k]),
        text_offset(data, text, text.len() as int) == module_text(data, text).len(),
{
    let out = module_text(data, text);
    let h = module_header();
    let db = data_block(data);
    let th = text_header();
    let tb = text_block(text);
    assert(data.take(data.len() as int) =~= data);
    assert(text.take(text.len() as int) =~= text);
    assert(text.take(0) =~= Seq::<TextEntry>::empty());
    assert(out.subrange(0, h.len() as int) =~= h);
    assert forall|k: int| 0 <= k < data.len() implies out.subrange(
        #[trigger] data_offset(data, k),
        data_offset(data, k + 1),
    ) == data_line(data[k]) by {
        lemma_data_block_prefix(data, k + 1);
        assert(data.take(k + 1).drop_last() =~= data.take(k));
        let before = data_block(data.take(k));
        let through = data_block(data.take(k + 1));
        assert(through == before + data_line(data[k]));
        let line = data_line(data[k]);
        let a = data_offset(data, k);
        assert forall|i: int| 0 <= i < line.len() implies out.subrange(a, a + line.len())[i]
            == line[i] by {
            assert(out[a + i] == db[before.len() + i]);
            assert(db.subrange(0, through.len() as int)[before.len() + i] == db[before.len() + i]);
            assert(through[before.len() + i] == line[i]);
        }
        assert(out.subrange(a, a + line.len()) =~= line);
    }
    assert(out.subrange(data_offset(data, data.len() as int), text_offset(data, text, 0)) =~= th);
    assert forall|k: int| 0 <= k < text.len() implies out.subrange(
        #[trigger] text_offset(data, text, k),
        text_offset(data, text, k + 1),
    ) == text_line(text[k]) by {
        lemma_text_block_prefix(text, k + 1);
        assert(text.take(k + 1).drop_last() =~= text.take(k));
        let before = text_block(text.take(k));
        let through = text_block(text.take(k + 1));
        assert(through == before + text_line(text[k]));
        let line = text_line(text[k]);
        let a = text_offset(data, text, k);
        assert forall|i: int| 0 <= i < line.len() implies out.subrange(a, a + line.len())[i]
            == line[i] by {
            assert(out[a + i] == tb[before.len() + i]);
            assert(tb.subrange(0, through.len() as int)[before.len() + i] == tb[before.len() + i]);
            assert(through[before.len() + i] == line[i]);
        }
        assert(out.subrange(a, a + line.len()) =~= line);
    }
}

impl Asm {
    /// Renders the module as assembler source.
    pub fn stringify(&self) -> (r: String)
        ensures
            r@ == module_text(self.data@, self.text@),
    {
        let mut result = "bits 64\nglobal _start\n\nsection .data\n".to_owned();
        let data = &self.data.items;
        let ghost dv = self.data@;
        let mut i: usize = 0;
        while i < data.len()
            invariant
                i <= data@.len(),
                dv == data@.map_values(|it: DataSectionItem| it@),
                result@ == module_header() + data_block(dv.take(i as int)),
            decreases data@.len() - i,
        {
            let item = &data[i];
            let ghost prev = result@;
            result.append("    ");
            result.append(item.name.as_str());
            result.append(" ");
            result.append(item.size.as_str());
            result.append(" ");
            result.append(item.values.as_str());
            result.append("\n");
            proof {
                assert(dv.take(i + 1).drop_last() =~= dv.take(i as int));
                assert(result@ =~= prev + data_line(dv[i as int]));
            }
            i = i + 1;
        }
        assert(dv.take(i as int) =~= dv);
        result.append("\nsection .text\n");
        let text = &self.text.items;
        let ghost tv = self.text@;
        let ghost before_text = result@;
        let mut j: usize = 0;
        while j < text.len()
            invariant
                j <= text@.len(),
                tv == text@.map_values(|it: TextSectionItem| it@),
                result@ == before_text + text_block(tv.take(j as int)),
            decreases text@.len() - j,
        {
            let ghost prev = result@;
            match &text[j] {
                TextSectionItem::Label(name) => {
                    result.append(name.as_str());
                    result.append(":\n");
                },
                TextSectionItem::Instruction(inst) => {
                    result.append("    ");
                    result.append(inst.as_str());
                    result.append("\n");
                },
            }
            proof {
                assert(tv.take(j + 1).drop_last() =~= tv.take(j as int));
                assert(result@ =~= prev + text_line(tv[j as int]));
            }
            j = j + 1;
        }
        assert(tv.take(j as int) =~= tv);
        result
    }
}

} // verus!
