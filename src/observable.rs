//! Turning delimited records into observations: the role of each column, read from the
//! header, and the observations of one record.
use vstd::prelude::*;
use crate::entities::{Observation, ObservationView};

verus! {

/// The pieces of `s` between the occurrences of `sep`.
pub uninterp spec fn split_on(s: Seq<char>, sep: Seq<char>) -> Seq<Seq<char>>;

/// The decimal digits of `n`.
pub uninterp spec fn decimal_of(n: nat) -> Seq<char>;

/// Relies on `str::split` with a string pattern, collected: the pieces of `s` between
/// the occurrences of `sep`, in order.
#[verifier::external_body]
fn split_field(s: &str, sep: &str) -> (r: Vec<String>)
    ensures
        r@.map_values(|x: String| x@) == split_on(s@, sep@),
{
    s.split(sep).map(|x| x.to_string()).collect()
}

/// Relies on `ToString` for `usize`: the decimal digits of `n`.
#[verifier::external_body]
fn decimal(n: usize) -> (r: String)
    ensures
        r@ == decimal_of(n as nat),
{
    n.to_string()
}

/// What one observation says, without the individual.
pub enum ObservationPartial {
    /// A variation (second) at a locus (first).
    Allele(String, String),
    /// A group membership.
    Group(String),
    /// A metadata value (second) under a key (first).
    Meta(String, String),
}

pub ghost enum PartialView {
    Allele(Seq<char>, Seq<char>),
    Group(Seq<char>),
    Meta(Seq<char>, Seq<char>),
}

/// The observation about `individual` that a partial one makes.
pub open spec fn complete(p: PartialView, individual: Seq<char>) -> ObservationView {
    match p {
        PartialView::Allele(l, v) => ObservationView::Allele(individual, l, v),
        PartialView::Group(g) => ObservationView::Group(individual, g),
        PartialView::Meta(k, v) => ObservationView::Meta(individual, k, v),
    }
}

impl ObservationPartial {
    pub open spec fn view(&self) -> PartialView {
        match self {
            ObservationPartial::Allele(l, v) => PartialView::Allele(l@, v@),
            ObservationPartial::Group(g) => PartialView::Group(g@),
            ObservationPartial::Meta(k, v) => PartialView::Meta(k@, v@),
        }
    }

    /// The observation about `individual`.
    pub fn to_observation(&self, individual: &str) -> (r: Observation)
        ensures
            r@ == complete(self@, individual@),
    {
        match self {
            ObservationPartial::Allele(l, v) => Observation::Allele(individual.to_owned(), l.clone(), v.clone()),
            ObservationPartial::Group(g) => Observation::Group(individual.to_owned(), g.clone()),
            ObservationPartial::Meta(k, v) => Observation::Meta(individual.to_owned(), k.clone(), v.clone()),
        }
    }
}

/// The role of a column.
pub enum Field {
    /// Alleles at the named locus.
    Locus(String),
    /// The individual's name.
    Name,
    /// The name of a group.
    Group,
    /// Membership of the named group, marked by the presence identifier.
    GroupPresence(String),
    /// A metadata value under the named key.
    Meta(String),
}

pub ghost enum FieldView {
    Locus(Seq<char>),
    Name,
    Group,
    GroupPresence(Seq<char>),
    Meta(Seq<char>),
}

impl Field {
    pub open spec fn view(&self) -> FieldView {
        match self {
            Field::Locus(s) => FieldView::Locus(s@),
            Field::Name => FieldView::Name,
            Field::Group => FieldView::Group,
            Field::GroupPresence(s) => FieldView::GroupPresence(s@),
            Field::Meta(s) => FieldView::Meta(s@),
        }
    }
}

pub open spec fn string_names(v: Seq<String>) -> Seq<Seq<char>> {
    v.map_values(|x: String| x@)
}

fn contains_name(v: &Vec<String>, s: &String) -> (r: bool)
    ensures
        r == string_names(v@).contains(s@),
{
    let mut i: usize = 0;
    while i < v.len()
        invariant
            i <= v@.len(),
            forall|k: int| 0 <= k < i ==> string_names(v@)[k] != s@,
        decreases v@.len() - i,
    {
        if v[i] == *s {
            assert(string_names(v@)[i as int] == s@);
            return true;
        }
        i = i + 1;
    }
    false
}

/// How records are read and which role each column plays.
pub struct CsvBuilder {
    pub headers: bool,
    pub delimiter: u8,
    pub separator: String,
    pub name_field: Option<String>,
    pub group_fields: Vec<String>,
    pub group_field: Option<String>,
    pub meta_fields: Vec<String>,
    pub group_presence_identifier: String,
}

/// The role of the column headed `h`: the name column first, then a group-presence
/// column, the group column, a metadata column, and otherwise a locus.
pub open spec fn field_of(b: CsvBuilder, h: Seq<char>) -> FieldView {
    if b.name_field matches Some(n) && n@ == h {
        FieldView::Name
    } else if string_names(b.group_fields@).contains(h) {
        FieldView::GroupPresence(h)
    } else if b.group_field matches Some(g) && g@ == h {
        FieldView::Group
    } else if string_names(b.meta_fields@).contains(h) {
        FieldView::Meta(h)
    } else {
        FieldView::Locus(h)
    }
}

impl CsvBuilder {
    /// A builder with a header row, `,` between columns, `/` between the alleles of a
    /// cell, no name, group or metadata column, and `Y` marking group presence.
    pub fn new() -> (r: Self)
        ensures
            r.headers && r.delimiter == 44 && r.separator@ == seq!['/'],
            r.name_field is None && r.group_field is None,
            r.group_fields@.len() == 0 && r.meta_fields@.len() == 0,
            r.group_presence_identifier@ == seq!['Y'],
    {
        proof {
            reveal_strlit("/");
            reveal_strlit("Y");
        }
        CsvBuilder {
            headers: true,
            delimiter: 44,
            separator: "/".to_owned(),
            name_field: None,
            group_fields: Vec::new(),
            group_field: None,
            meta_fields: Vec::new(),
            group_presence_identifier: "Y".to_owned(),
        }
    }

    /// Whether the first record is a header row.
    pub fn headers(&mut self, headers: bool) -> (r: &mut Self)
        ensures
            *r == (CsvBuilder { headers, ..*old(self) }),
            *final(self) == *final(r),
    {
        self.headers = headers;
        self
    }

    /// The byte between columns.
    pub fn delimiter(&mut self, delimiter: u8) -> (r: &mut Self)
        ensures
            *r == (CsvBuilder { delimiter, ..*old(self) }),
            *final(self) == *final(r),
    {
        self.delimiter = delimiter;
        self
    }

    /// The text between the alleles of one cell.
    pub fn separator(&mut self, separator: &str) -> (r: &mut Self)
        ensures
            r.separator@ == separator@,
            *r == (CsvBuilder { separator: r.separator, ..*old(self) }),
            *final(self) == *final(r),
    {
        self.separator = separator.to_owned();
        self
    }

    /// The column that holds the individual's name.
    pub fn name_field(&mut self, name_field: &str) -> (r: &mut Self)
        ensures
            r.name_field matches Some(n) && n@ == name_field@,
            *r == (CsvBuilder { name_field: r.name_field, ..*old(self) }),
            *final(self) == *final(r),
    {
        self.name_field = Some(name_field.to_owned());
        self
    }

    /// The column that holds the name of the individual's group.
    pub fn group_field(&mut self, group_field: &str) -> (r: &mut Self)
        ensures
            r.group_field matches Some(n) && n@ == group_field@,
            *r == (CsvBuilder { group_field: r.group_field, ..*old(self) }),
            *final(self) == *final(r),
    {
        self.group_field = Some(group_field.to_owned());
        self
    }

    /// Columns named after groups; a cell holding `group_presence_identifier` makes the
    /// individual a member of the column's group.
    pub fn group_fields(&mut self, group_fields: Vec<String>, group_presence_identifier: &str) -> (r: &mut Self)
        ensures
            r.group_fields == group_fields,
            r.group_presence_identifier@ == group_presence_identifier@,
            *r == (CsvBuilder {
                group_fields: r.group_fields,
                group_presence_identifier: r.group_presence_identifier,
                ..*old(self)
            }),
            *final(self) == *final(r),
    {
        self.group_fields = group_fields;
        self.group_presence_identifier = group_presence_identifier.to_owned();
        self
    }

    /// Columns that hold metadata, under the column's name.
    pub fn meta_fields(&mut self, meta_fields: Vec<String>) -> (r: &mut Self)
        ensures
            r.meta_fields == meta_fields,
            *r == (CsvBuilder { meta_fields: r.meta_fields, ..*old(self) }),
            *final(self) == *final(r),
    {
        self.meta_fields = meta_fields;
        self
    }

    /// The role of the column headed `header`.
    pub fn field_for(&self, header: &String) -> (r: Field)
        ensures
            r@ == field_of(*self, header@),
    {
        if let Some(n) = &self.name_field {
            if *n == *header {
                return Field::Name;
            }
        }
        if contains_name(&self.group_fields, header) {
            return Field::GroupPresence(header.clone());
        }
        if let Some(g) = &self.group_field {
            if *g == *header {
                return Field::Group;
            }
        }
        if contains_name(&self.meta_fields, header) {
            return Field::Meta(header.clone());
        }
        Field::Locus(header.clone())
    }

    /// The layout of the records: the role of each column where there is a header row
    /// (`header`), and how cells are read.
    pub fn layout(&self, header: Option<&Vec<String>>) -> (r: RecordLayout)
        ensures
            match header {
                Some(h) => r.fields matches Some(f) && f@.len() == h@.len()
                    && forall|k: int| 0 <= k < h@.len() ==> (#[trigger] f@[k])@ == field_of(*self, h@[k]@),
                None => r.fields is None,
            },
            r.separator@ == self.separator@,
            r.group_presence_identifier@ == self.group_presence_identifier@,
    {
        let fields = match header {
            Some(h) => {
                let mut f: Vec<Field> = Vec::new();
                let mut k: usize = 0;
                while k < h.len()
                    invariant
                        k <= h@.len(),
                        f@.len() == k,
                        forall|j: int| 0 <= j < k ==> (#[trigger] f@[j])@ == field_of(*self, h@[j]@),
                    decreases h@.len() - k,
                {
                    f.push(self.field_for(&h[k]));
                    k = k + 1;
                }
                Some(f)
            },
            None => None,
        };
        RecordLayout {
            fields,
            separator: self.separator.clone(),
            group_presence_identifier: self.group_presence_identifier.clone(),
        }
    }
}

/// How the cells of a record become observations.
pub struct RecordLayout {
    /// The role of each column, where the records have a header row.
    pub fields: Option<Vec<Field>>,
    pub separator: String,
    pub group_presence_identifier: String,
}

/// The partial observations that the cell `cell` in a column of role `f` makes.
pub open spec fn cell_partials(f: FieldView, cell: Seq<char>, sep: Seq<char>, presence: Seq<char>) -> Seq<PartialView> {
    match f {
        FieldView::Locus(s) => split_on(cell, sep).map_values(|x: Seq<char>| PartialView::Allele(s, x)),
        FieldView::Name => Seq::empty(),
        FieldView::Group => seq![PartialView::Group(cell)],
        FieldView::GroupPresence(s) => if cell == presence { seq![PartialView::Group(s)] } else { Seq::empty() },
        FieldView::Meta(s) => seq![PartialView::Meta(s, cell)],
    }
}

/// The role of column `k` (without a header row, column `k` holds the locus named by
/// its position).
pub open spec fn role(fields: Option<Seq<FieldView>>, k: int) -> FieldView {
    match fields {
        Some(f) => f[k],
        None => FieldView::Locus(decimal_of(k as nat)),
    }
}

/// The partial observations of the first `k` cells of a record.
pub open spec fn record_partials(fields: Option<Seq<FieldView>>, row: Seq<Seq<char>>, k: int, sep: Seq<char>, presence: Seq<char>) -> Seq<PartialView>
    decreases k,
{
    if k <= 0 {
        Seq::empty()
    } else {
        record_partials(fields, row, k - 1, sep, presence) + cell_partials(role(fields, k - 1), row[k - 1], sep, presence)
    }
}

/// The name of the individual a record is about, reading its first `k` cells: the
/// last name column, or else the record's position.
pub open spec fn record_name(fields: Option<Seq<FieldView>>, row: Seq<Seq<char>>, k: int, index: nat) -> Seq<char>
    decreases k,
{
    if k <= 0 {
        decimal_of(index)
    } else if role(fields, k - 1) is Name {
        row[k - 1]
    } else {
        record_name(fields, row, k - 1, index)
    }
}

impl RecordLayout {
    pub open spec fn field_views(&self) -> Option<Seq<FieldView>> {
        match self.fields {
            Some(f) => Some(f@.map_values(|x: Field| x@)),
            None => None,
        }
    }

    /// The observations that the record `row`, at position `index` among the records,
    /// makes: for each cell in turn, an allele for each piece of a locus cell, a group
    /// membership, or a metadata value, all about the record's individual.
    pub fn observations(&self, index: usize, row: &Vec<String>) -> (r: Vec<Observation>)
        requires
            self.fields matches Some(f) ==> row@.len() <= f@.len(),
        ensures
            ({
                let cells = string_names(row@);
                let ps = record_partials(self.field_views(), cells, cells.len() as int, self.separator@, self.group_presence_identifier@);
                let who = record_name(self.field_views(), cells, cells.len() as int, index as nat);
                r@.map_values(|o: Observation| o@) == ps.map_values(|p: PartialView| complete(p, who))
            }),
    {
        let ghost cells = string_names(row@);
        let ghost fv = self.field_views();
        let ghost sep = self.separator@;
        let ghost pres = self.group_presence_identifier@;
        let mut individual = decimal(index);
        let mut partials: Vec<ObservationPartial> = Vec::new();
        let mut k: usize = 0;
        while k < row.len()
            invariant
                k <= row@.len(),
                cells == string_names(row@),
                fv == self.field_views(),
                self.fields matches Some(f) ==> row@.len() <= f@.len(),
                sep == self.separator@,
                pres == self.group_presence_identifier@,
                partials@.map_values(|p: ObservationPartial| p@) == record_partials(fv, cells, k as int, sep, pres),
                individual@ == record_name(fv, cells, k as int, index as nat),
            decreases row@.len() - k,
        {
            let ghost before = partials@.map_values(|p: ObservationPartial| p@);
            let cell = &row[k];
            assert(cells[k as int] == cell@);
            match &self.fields {
                Some(fields) => {
                    assert(role(fv, k as int) == fields@[k as int]@);
                    match &fields[k] {
                        Field::Name => {
                            individual = cell.clone();
                            assert(partials@.map_values(|p: ObservationPartial| p@) =~= before + Seq::<PartialView>::empty());
                        },
                        Field::Locus(s) => {
                            self.push_alleles(&mut partials, s, cell);
                        },
                        Field::Group => {
                            partials.push(ObservationPartial::Group(cell.clone()));
                            assert(partials@.map_values(|p: ObservationPartial| p@) =~= before + seq![PartialView::Group(cell@)]);
                        },
                        Field::GroupPresence(s) => {
                            if *cell == self.group_presence_identifier {
                                partials.push(ObservationPartial::Group(s.clone()));
                                assert(partials@.map_values(|p: ObservationPartial| p@) =~= before + seq![PartialView::Group(s@)]);
                            } else {
                                assert(partials@.map_values(|p: ObservationPartial| p@) =~= before + Seq::<PartialView>::empty());
                            }
                        },
                        Field::Meta(s) => {
                            partials.push(ObservationPartial::Meta(s.clone(), cell.clone()));
                            assert(partials@.map_values(|p: ObservationPartial| p@) =~= before + seq![PartialView::Meta(s@, cell@)]);
                        },
                    }
                },
                None => {
                    let s = decimal(k);
                    self.push_alleles(&mut partials, &s, cell);
                },
            }
            k = k + 1;
        }
        let mut r: Vec<Observation> = Vec::new();
        let mut j: usize = 0;
        while j < partials.len()
            invariant
                j <= partials@.len(),
                r@.map_values(|o: Observation| o@) == partials@.map_values(|p: ObservationPartial| p@).subrange(0, j as int).map_values(
                    |p: PartialView| complete(p, individual@)),
            decreases partials@.len() - j,
        {
            let ghost r0 = r@;
            let o = partials[j].to_observation(individual.as_str());
            r.push(o);
            assert(r@.map_values(|o: Observation| o@) =~= r0.map_values(|o: Observation| o@).push(o@));
            assert(partials@.map_values(|p: ObservationPartial| p@).subrange(0, j + 1) =~= partials@.map_values(|p: ObservationPartial| p@).subrange(0, j as int).push(partials@[j as int]@));
            assert(r@.map_values(|o: Observation| o@) =~= partials@.map_values(|p: ObservationPartial| p@).subrange(0, j + 1).map_values(
                |p: PartialView| complete(p, individual@)));
            j = j + 1;
        }
        assert(partials@.map_values(|p: ObservationPartial| p@).subrange(0, j as int) =~= partials@.map_values(|p: ObservationPartial| p@));
        r
    }

    /// Appends an allele at `locus` for each piece of `cell`.
    fn push_alleles(&self, partials: &mut Vec<ObservationPartial>, locus: &String, cell: &String)
        ensures
            final(partials)@.map_values(|p: ObservationPartial| p@) == old(partials)@.map_values(|p: ObservationPartial| p@)
                + split_on(cell@, self.separator@).map_values(|x: Seq<char>| PartialView::Allele(locus@, x)),
    {
        let pieces = split_field(cell.as_str(), self.separator.as_str());
        let ghost start = partials@.map_values(|p: ObservationPartial| p@);
        let ghost pv = split_on(cell@, self.separator@);
        let mut i: usize = 0;
        while i < pieces.len()
            invariant
                i <= pieces@.len(),
                pieces@.map_values(|x: String| x@) == pv,
                partials@.map_values(|p: ObservationPartial| p@) == start + pv.subrange(0, i as int).map_values(|x: Seq<char>| PartialView::Allele(locus@, x)),
            decreases pieces@.len() - i,
        {
            let ghost p0 = partials@;
            partials.push(ObservationPartial::Allele(locus.clone(), pieces[i].clone()));
            assert(pv[i as int] == pieces@[i as int]@);
            assert(partials@.map_values(|p: ObservationPartial| p@) =~= p0.map_values(|p: ObservationPartial| p@).push(PartialView::Allele(locus@, pv[i as int])));
            assert(pv.subrange(0, i + 1).map_values(|x: Seq<char>| PartialView::Allele(locus@, x)) =~= pv.subrange(0, i as int).map_values(|x: Seq<char>| PartialView::Allele(locus@, x)).push(PartialView::Allele(locus@, pv[i as int])));
            i = i + 1;
        }
        assert(pv.subrange(0, i as int) =~= pv);
    }
}

} // verus!
