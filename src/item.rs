use vstd::prelude::*;

verus! {

#[verifier::external_type_specification]
#[verifier::external_body]
pub struct ExCsvError(csv::Error);

/// The records that csv reads from `data` (no header row, comma-delimited,
/// all records of one length), each as its fields, or none when it fails.
pub uninterp spec fn csv_records_of(data: Seq<u8>) -> Option<Seq<Seq<Seq<char>>>>;

/// Relies on csv's `ReaderBuilder` (with `has_headers(false)`) and
/// `StringRecord`: the records and their fields depend on the bytes alone,
/// and a failure yields csv's error.
#[verifier::external_body]
fn read_records(data: &[u8]) -> (r: Result<Vec<Vec<String>>, csv::Error>)
    ensures
        match r {
            Ok(records) => csv_records_of(data@) == Some(records.deep_view()),
            Err(_) => csv_records_of(data@) is None,
        },
{
    let mut rdr = csv::ReaderBuilder::new().has_headers(false).from_reader(data);
    rdr.records().map(|rec| rec.map(|fields| fields.iter().map(String::from).collect())).collect()
}

/// Why an item source could not be read.
pub enum ItemsError {
    /// The source is not well-formed csv.
    Malformed(csv::Error),
    /// Record `record` has no key field.
    MissingKey { record: usize },
}

/// The key and optional value of a record: its first field, and its second
/// unless that is missing or empty.
pub open spec fn record_data(fields: Seq<Seq<char>>) -> (Seq<char>, Option<Seq<char>>) {
    (fields[0], if fields.len() >= 2 && fields[1].len() > 0 { Some(fields[1]) } else { None })
}

/// The first record without fields, if any.
pub open spec fn first_empty_record(records: Seq<Seq<Seq<char>>>) -> Option<int> {
    if exists|i: int| 0 <= i < records.len() && records[i].len() == 0 {
        Some(choose|i: int| 0 <= i < records.len() && records[i].len() == 0 && forall|j: int| 0 <= j < i ==> records[j].len() > 0)
    } else {
        None
    }
}

/// The entries for `records`, in order: a record's first field is the key
/// and its second, when present and non-empty, the value.
pub fn items_from_records(records: &Vec<Vec<String>>) -> (r: Result<Vec<Item>, ItemsError>)
    ensures
        match first_empty_record(records.deep_view()) {
            Some(k) => r matches Err(ItemsError::MissingKey { record }) && record == k,
            None => r matches Ok(items) && items@.len() == records@.len() && forall|i: int|
                0 <= i < items@.len() ==> #[trigger] items@[i]@ == (ItemView {
                    index: i as usize,
                    key: record_data(records.deep_view()[i]).0,
                    value: record_data(records.deep_view()[i]).1,
                    score: None,
                    match_indices: None,
                    selected: false,
                }),
        },
{
    let ghost view = records.deep_view();
    let mut items: Vec<Item> = Vec::new();
    let mut i: usize = 0;
    while i < records.len()
        invariant
            view == records.deep_view(),
            i <= records@.len(),
            items@.len() == i,
            forall|j: int| 0 <= j < i ==> #[trigger] view[j].len() > 0,
            forall|j: int|
                0 <= j < i ==> #[trigger] items@[j]@ == (ItemView {
                    index: j as usize,
                    key: record_data(view[j]).0,
                    value: record_data(view[j]).1,
                    score: None,
                    match_indices: None,
                    selected: false,
                }),
        decreases records@.len() - i,
    {
        let fields = &records[i];
        assert(view[i as int] == fields.deep_view());
        if fields.len() == 0 {
            proof {
                let k = choose|k: int| 0 <= k < view.len() && view[k].len() == 0 && forall|j: int| 0 <= j < k ==> view[j].len() > 0;
                if k < i {
                    assert(view[k].len() > 0);
                }
                if k > i {
                    assert(view[i as int].len() > 0);
                }
            }
            return Err(ItemsError::MissingKey { record: i });
        }
        let key = fields[0].clone();
        let value = if fields.len() >= 2 && !fields[1].as_str().is_empty() {
            Some(fields[1].clone())
        } else {
            None
        };
        assert(fields.deep_view()[0] == fields@[0]@);
        items.push(Item::new(i, ItemData { key, value }));
        i = i + 1;
    }
    Ok(items)
}

/// Reads an item source: csv records without a header row, one entry each.
pub fn parse_items(source: &[u8]) -> (r: Result<Vec<Item>, ItemsError>)
    ensures
        match csv_records_of(source@) {
            None => r matches Err(ItemsError::Malformed(_)),
            Some(records) => match first_empty_record(records) {
                Some(k) => r matches Err(ItemsError::MissingKey { record }) && record == k,
                None => r matches Ok(items) && items@.len() == records.len() && forall|i: int|
                    0 <= i < items@.len() ==> #[trigger] items@[i]@ == (ItemView {
                        index: i as usize,
                        key: record_data(records[i]).0,
                        value: record_data(records[i]).1,
                        score: None,
                        match_indices: None,
                        selected: false,
                    }),
            },
        },
{
    match read_records(source) {
        Ok(records) => items_from_records(&records),
        Err(e) => Err(ItemsError::Malformed(e)),
    }
}

/// One record of the item source: the key that queries match against, and the
/// value printed on submit (the key when absent).
pub struct ItemData {
    pub key: String,
    pub value: Option<String>,
}

/// One selectable entry of the corpus.
pub struct Item {
    pub index: usize,
    pub data: ItemData,
    pub score: Option<i64>,
    pub match_indices: Option<Vec<usize>>,
    pub selected: bool,
}

/// What an entry holds, with its strings as character sequences.
pub struct ItemView {
    pub index: usize,
    pub key: Seq<char>,
    pub value: Option<Seq<char>>,
    pub score: Option<i64>,
    pub match_indices: Option<Seq<usize>>,
    pub selected: bool,
}

pub open spec fn opt_positions_view(p: Option<Vec<usize>>) -> Option<Seq<usize>> {
    match p {
        Some(v) => Some(v@),
        None => None,
    }
}

pub open spec fn opt_string_view(s: Option<String>) -> Option<Seq<char>> {
    match s {
        Some(v) => Some(v@),
        None => None,
    }
}

impl View for Item {
    type V = ItemView;

    open spec fn view(&self) -> ItemView {
        ItemView {
            index: self.index,
            key: self.data.key@,
            value: opt_string_view(self.data.value),
            score: self.score,
            match_indices: opt_positions_view(self.match_indices),
            selected: self.selected,
        }
    }
}

/// The text an entry contributes to the output: its value, or its key.
pub open spec fn output_of(item: ItemView) -> Seq<char> {
    match item.value {
        Some(v) => v,
        None => item.key,
    }
}

/// Whether an entry with score `a` at index `i` ranks strictly above one with
/// score `b` at index `j`: higher scores first, scored entries before unscored
/// ones, and earlier entries first among equals.
pub open spec fn ranks_above(a: Option<i64>, i: int, b: Option<i64>, j: int) -> bool {
    match (a, b) {
        (Some(x), Some(y)) => x > y || (x == y && i < j),
        (Some(_), None) => true,
        (None, Some(_)) => false,
        (None, None) => i < j,
    }
}

pub proof fn lemma_ranks_above_total(a: Option<i64>, i: int, b: Option<i64>, j: int)
    requires
        i != j,
    ensures
        ranks_above(a, i, b, j) != ranks_above(b, j, a, i),
{
}

pub fn clone_opt_string(s: &Option<String>) -> (r: Option<String>)
    ensures
        r == *s,
{
    match s {
        Some(v) => Some(v.clone()),
        None => None,
    }
}

/// A copy of a list of match positions.
pub fn clone_positions(p: &Option<Vec<usize>>) -> (r: Option<Vec<usize>>)
    ensures
        opt_positions_view(r) == opt_positions_view(*p),
{
    match p {
        None => None,
        Some(v) => {
            let mut out: Vec<usize> = Vec::new();
            let mut i: usize = 0;
            while i < v.len()
                invariant
                    i <= v@.len(),
                    out@ == v@.subrange(0, i as int),
                decreases v@.len() - i,
            {
                out.push(v[i]);
                proof {
                    assert(v@.subrange(0, i as int + 1) == v@.subrange(0, i as int).push(v@[i as int]));
                }
                i = i + 1;
            }
            assert(v@.subrange(0, v@.len() as int) == v@);
            Some(out)
        },
    }
}

impl ItemData {
    pub fn clone_data(&self) -> (r: ItemData)
        ensures
            r == *self,
    {
        ItemData { key: self.key.clone(), value: clone_opt_string(&self.value) }
    }
}

impl Item {
    pub open spec fn spec_new(index: usize, data: ItemData) -> Item {
        Item { index, data, score: None, match_indices: None, selected: false }
    }

    /// A fresh, unscored and unselected entry at position `index` of the corpus.
    pub fn new(index: usize, data: ItemData) -> (r: Self)
        ensures
            r == Item::spec_new(index, data),
    {
        Self { index, data, score: None, match_indices: None, selected: false }
    }

    /// Whether this entry comes before `other` in the visible order.
    pub fn ranks_before(&self, other: &Item) -> (r: bool)
        ensures
            r == ranks_above(self.score, self.index as int, other.score, other.index as int),
    {
        match (self.score, other.score) {
            (Some(a), Some(b)) => a > b || (a == b && self.index < other.index),
            (Some(_), None) => true,
            (None, Some(_)) => false,
            (None, None) => self.index < other.index,
        }
    }
}

} // verus!
