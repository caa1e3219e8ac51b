use vstd::prelude::*;

use crate::errors::PickError;
use crate::records::{InstanceRecord, RecordModel, Tag, TagModel};
use crate::universe::Universe;

verus! {

/// The value the provider's tag list gives to `name`: the value of the last
/// tag carrying `name` as key together with some value.
pub open spec fn tag_value(ts: Seq<TagModel>, name: Seq<char>) -> Option<Seq<char>>
    decreases ts.len(),
{
    if ts.len() == 0 {
        None
    } else if ts.last().key == Some(name) && ts.last().value is Some {
        ts.last().value
    } else {
        tag_value(ts.drop_last(), name)
    }
}

/// The value a record's tags give to `name`; a record without a tag list
/// gives none.
pub open spec fn record_tag_value(r: RecordModel, name: Seq<char>) -> Option<Seq<char>> {
    match r.tags {
        Some(ts) => tag_value(ts, name),
        None => None,
    }
}

/// The identity padded with spaces to the fixed column width.
pub open spec fn padded_id(id: Seq<char>) -> Seq<char> {
    if id.len() >= 19 {
        id
    } else {
        id + Seq::new((19 - id.len()) as nat, |i: int| ' ')
    }
}

/// The identity column of one line: the padded identity and a separator,
/// or nothing for a record without an identity.
pub open spec fn id_part_of(r: RecordModel) -> Seq<char> {
    match r.instance_id {
        Some(id) => padded_id(id) + seq![':', ' '],
        None => Seq::empty(),
    }
}

/// The `name=value ` chunk one display tag contributes to a line; a tag the
/// record does not carry contributes nothing.
pub open spec fn tag_chunk_of(r: RecordModel, name: Seq<char>) -> Seq<char> {
    match record_tag_value(r, name) {
        Some(v) => name + seq!['='] + v + seq![' '],
        None => Seq::empty(),
    }
}

/// The chunks of every display tag, in the configured order.
pub open spec fn tags_part_of(r: RecordModel, names: Seq<Seq<char>>) -> Seq<char>
    decreases names.len(),
{
    if names.len() == 0 {
        Seq::empty()
    } else {
        tags_part_of(r, names.drop_last()) + tag_chunk_of(r, names.last())
    }
}

/// One presentation line: identity column, then one chunk per display tag
/// the record carries, in display order.
pub open spec fn line_of(r: RecordModel, names: Seq<Seq<char>>) -> Seq<char> {
    id_part_of(r) + tags_part_of(r, names)
}

/// The tag value of `name` in an optional tag list, as `tag_value` reads it.
pub open spec fn opt_tag_value(ts: Option<Seq<TagModel>>, name: Seq<char>) -> Option<Seq<char>> {
    match ts {
        Some(s) => tag_value(s, name),
        None => None,
    }
}

/// Looks the display tag `name` up in a record's tag list: the last tag with
/// that key and a value wins, exactly as `tag_value` reads it.
fn lookup_tag<'a>(tags: &'a Option<Vec<Tag>>, name: &String) -> (r: Option<&'a String>)
    ensures
        match r {
            Some(v) => opt_tag_value(tags.deep_view(), name@) == Some(v@),
            None => opt_tag_value(tags.deep_view(), name@) is None,
        },
{
    match tags.as_ref() {
        None => None,
        Some(ts) => {
            let ghost tsm = ts.deep_view();
            let mut best: Option<&'a String> = None;
            let mut i: usize = 0;
            proof {
                assert(tsm.take(0) =~= Seq::<TagModel>::empty());
            }
            while i < ts.len()
                invariant
                    0 <= i <= ts.len(),
                    tsm == ts.deep_view(),
                    tags.deep_view() == Some(tsm),
                    match best {
                        Some(v) => tag_value(tsm.take(i as int), name@) == Some(v@),
                        None => tag_value(tsm.take(i as int), name@) is None,
                    },
                decreases ts.len() - i,
            {
                let t = &ts[i];
                proof {
                    assert(tsm[i as int] == ts@[i as int].deep_view());
                }
                let key_hit = crate::records::opt_string_is(&t.key, name);
                if key_hit && t.value.is_some() {
                    best = t.value.as_ref();
                }
                proof {
                    assert(tsm.take(i + 1).drop_last() =~= tsm.take(i as int));
                    assert(tsm.take(i + 1).last() == tsm[i as int]);
                }
                i += 1;
            }
            proof {
                assert(tsm.take(ts.len() as int) =~= tsm);
            }
            best
        },
    }
}

/// Renders one record into its presentation line: the identity padded to a
/// fixed column, then `name=value ` for each configured display tag the
/// record carries, in the configured order; absent tags are omitted.
pub fn render_line(rec: &InstanceRecord, names: &Vec<String>) -> (line: String)
    ensures
        line@ == line_of(rec@, names.deep_view()),
{
    let mut line = String::new();
    match rec.instance_id.as_ref() {
        None => {
            proof {
                assert(line@ =~= id_part_of(rec@));
            }
        },
        Some(id) => {
            line.append(id.as_str());
            let n = id.as_str().unicode_len();
            let mut k = n;
            proof {
                reveal_strlit(" ");
                reveal_strlit(": ");
                assert(line@ =~= id@ + Seq::new(0nat, |i: int| ' '));
            }
            while k < 19
                invariant
                    n == id@.len(),
                    n <= k,
                    k <= 19 || k == n,
                    line@ == id@ + Seq::new((k - n) as nat, |i: int| ' '),
                decreases 19 - k,
            {
                line.append(" ");
                proof {
                    reveal_strlit(" ");
                    assert(" "@ =~= seq![' ']);
                    assert(id@ + Seq::new((k + 1 - n) as nat, |i: int| ' ') =~= id@ + Seq::new(
                        (k - n) as nat,
                        |i: int| ' ',
                    ) + seq![' ']);
                }
                k += 1;
            }
            proof {
                assert(line@ =~= padded_id(id@));
            }
            line.append(": ");
            proof {
                reveal_strlit(": ");
                assert(": "@ =~= seq![':', ' ']);
                assert(rec@.instance_id == Some(id@));
                assert(line@ =~= id_part_of(rec@));
            }
        },
    }
    let ghost nms = names.deep_view();
    let ghost head = line@;
    let mut j: usize = 0;
    proof {
        assert(nms.take(0) =~= Seq::<Seq<char>>::empty());
        assert(line@ =~= head + tags_part_of(rec@, nms.take(0)));
    }
    while j < names.len()
        invariant
            0 <= j <= names.len(),
            nms == names.deep_view(),
            head == id_part_of(rec@),
            line@ == head + tags_part_of(rec@, nms.take(j as int)),
        decreases names.len() - j,
    {
        let name = &names[j];
        proof {
            assert(nms[j as int] == names@[j as int]@);
            assert(rec@.tags == rec.tags.deep_view());
        }
        let ghost pre = line@;
        match lookup_tag(&rec.tags, name) {
            Some(v) => {
                line.append(name.as_str());
                line.append("=");
                line.append(v.as_str());
                line.append(" ");
                proof {
                    reveal_strlit("=");
                    reveal_strlit(" ");
                    assert("="@ =~= seq!['=']);
                    assert(" "@ =~= seq![' ']);
                    assert(record_tag_value(rec@, nms[j as int]) == Some(v@));
                    assert(line@ =~= pre + tag_chunk_of(rec@, nms[j as int]));
                }
            },
            None => {
                proof {
                    assert(record_tag_value(rec@, nms[j as int]) is None);
                    assert(line@ =~= pre + tag_chunk_of(rec@, nms[j as int]));
                }
            },
        }
        proof {
            assert(nms.take(j + 1).drop_last() =~= nms.take(j as int));
            assert(nms.take(j + 1).last() == nms[j as int]);
            assert(line@ =~= head + tags_part_of(rec@, nms.take(j + 1)));
        }
        j += 1;
    }
    proof {
        assert(nms.take(names@.len() as int) =~= nms);
    }
    line
}

/// The ordered snapshot the selector works on: the display index table and
/// the presentation lines, parallel by construction, both derived from the
/// one iteration of the final universe and never regenerated.
pub struct Presentation {
    table: Vec<InstanceRecord>,
    lines: Vec<String>,
}

impl Presentation {
    /// The display index table: the records in presentation order.
    pub closed spec fn table(&self) -> Seq<RecordModel> {
        self.table.deep_view()
    }

    /// The presentation lines, parallel to the table.
    pub closed spec fn lines(&self) -> Seq<Seq<char>> {
        self.lines.deep_view()
    }

    /// How many lines the selector is given.
    pub fn len(&self) -> (n: usize)
        ensures
            n == self.table().len(),
    {
        self.table.len()
    }

    /// The rendered lines, for handing to the selector.
    pub fn lines_ref(&self) -> (r: &Vec<String>)
        ensures
            r.deep_view() == self.lines(),
    {
        &self.lines
    }

    /// Resolves a selector-returned line index back to the record the line
    /// was rendered from.  An index outside the table is a contract
    /// violation of the selector and is refused.
    pub fn record_at(&self, i: usize) -> (r: Result<&InstanceRecord, PickError>)
        ensures
            match r {
                Ok(rec) => i < self.table().len() && rec@ == self.table()[i as int],
                Err(e) => i >= self.table().len() && e is IndexOutOfRange,
            },
    {
        if i < self.table.len() {
            proof {
                assert(self.table@[i as int].deep_view() == self.table()[i as int]);
            }
            Ok(&self.table[i])
        } else {
            Err(PickError::IndexOutOfRange)
        }
    }
}

/// Derives the presentation from the final universe: one line per record,
/// in the universe's one iteration order, the same order the index table
/// keeps for resolving selections.
pub fn present(u: Universe, names: &Vec<String>) -> (p: Presentation)
    ensures
        p.table() == u@,
        p.lines().len() == p.table().len(),
        forall|i: int|
            0 <= i < p.table().len() ==> p.lines()[i] == line_of(p.table()[i], names.deep_view()),
{
    let table = u.into_table();
    let ghost tm = table.deep_view();
    let mut lines: Vec<String> = Vec::new();
    let mut i: usize = 0;
    while i < table.len()
        invariant
            0 <= i <= table@.len(),
            tm == table.deep_view(),
            lines.deep_view().len() == i,
            forall|j: int| 0 <= j < i ==> lines.deep_view()[j] == line_of(tm[j], names.deep_view()),
        decreases table@.len() - i,
    {
        let ghost pre = lines.deep_view();
        let line = render_line(&table[i], names);
        proof {
            assert(table@[i as int].deep_view() == tm[i as int]);
        }
        lines.push(line);
        proof {
            assert(lines.deep_view() =~= pre.push(line@));
        }
        i += 1;
    }
    Presentation { table, lines }
}

} // verus!
