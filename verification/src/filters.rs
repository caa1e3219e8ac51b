use vstd::prelude::*;

verus! {

/// One attribute predicate of a query: an attribute name and, optionally, the
/// ordered list of acceptable values.  Absent `values` means "any value".
#[derive(Clone)]
pub struct FilterSpec {
    pub name: String,
    pub values: Option<Vec<String>>,
}

/// The mathematical content of a [`FilterSpec`].
pub ghost struct FilterModel {
    pub name: Seq<char>,
    pub values: Option<Seq<Seq<char>>>,
}

impl View for FilterSpec {
    type V = FilterModel;

    open spec fn view(&self) -> FilterModel {
        FilterModel { name: self.name@, values: self.values.deep_view() }
    }
}

impl DeepView for FilterSpec {
    type V = FilterModel;

    open spec fn deep_view(&self) -> FilterModel {
        self.view()
    }
}

/// The position of the first occurrence of `ch` in `s`, or `s.len()` when
/// `ch` does not occur at all.
pub open spec fn first_index_of(s: Seq<char>, ch: char) -> int
    decreases s.len(),
{
    if s.len() == 0 {
        0
    } else if s[0] == ch {
        0
    } else {
        1 + first_index_of(s.drop_first(), ch)
    }
}

/// `first_index_of` lies in `[0, s.len()]`, points at `ch` when it is in
/// range, and nothing before it is `ch`.
pub proof fn lemma_first_index_of(s: Seq<char>, ch: char)
    ensures
        0 <= first_index_of(s, ch) <= s.len(),
        first_index_of(s, ch) < s.len() ==> s[first_index_of(s, ch)] == ch,
        forall|j: int| 0 <= j < first_index_of(s, ch) ==> s[j] != ch,
    decreases s.len(),
{
    if s.len() == 0 {
    } else if s[0] == ch {
    } else {
        lemma_first_index_of(s.drop_first(), ch);
        assert forall|j: int| 0 <= j < first_index_of(s, ch) implies s[j] != ch by {
            if j > 0 {
                assert(s.drop_first()[j - 1] == s[j]);
            }
        }
    }
}

/// A scan that saw no `ch` before position `k`, and `ch` at `k` (or ran off
/// the end with `k == s.len()`), has found `first_index_of`.
pub proof fn lemma_first_index_found(s: Seq<char>, ch: char, k: int)
    requires
        0 <= k <= s.len(),
        forall|j: int| 0 <= j < k ==> s[j] != ch,
        k < s.len() ==> s[k] == ch,
    ensures
        first_index_of(s, ch) == k,
    decreases s.len(),
{
    if s.len() == 0 {
    } else if s[0] == ch {
        assert(k == 0);
    } else {
        assert(k >= 1);
        lemma_first_index_found(s.drop_first(), ch, k - 1);
    }
}

/// The pieces of `s` between occurrences of the separator `sep`, in order.
/// A string without `sep` is one piece; every occurrence of `sep` starts a
/// new piece, so there is always at least one piece, and pieces may be empty.
pub open spec fn split_on(s: Seq<char>, sep: char) -> Seq<Seq<char>>
    decreases s.len(),
    via split_on_decreases
{
    let k = first_index_of(s, sep);
    if k == s.len() {
        seq![s]
    } else {
        seq![s.take(k)] + split_on(s.skip(k + 1), sep)
    }
}

#[via_fn]
proof fn split_on_decreases(s: Seq<char>, sep: char) {
    lemma_first_index_of(s, sep);
}

/// How one raw clause reads: the first `=` splits the attribute name from a
/// comma-separated value list; a clause without `=` constrains no values.
pub open spec fn parse_clause(c: Seq<char>) -> FilterModel {
    let k = first_index_of(c, '=');
    if k == c.len() {
        FilterModel { name: c, values: None }
    } else {
        FilterModel { name: c.take(k), values: Some(split_on(c.skip(k + 1), ',')) }
    }
}

/// The implicit predicate that seeds every filter group: only running
/// instances are of interest.
pub open spec fn running_state_filter() -> FilterModel {
    FilterModel { name: "instance-state-name"@, values: Some(seq!["running"@]) }
}

/// How one raw filter string reads: the implicit running-state predicate,
/// then one parsed clause per semicolon-separated piece.
pub open spec fn parse_group(raw: Seq<char>) -> Seq<FilterModel> {
    seq![running_state_filter()] + split_on(raw, ';').map_values(|c: Seq<char>| parse_clause(c))
}

/// Splits `s` at every occurrence of `sep`, keeping empty pieces.
pub fn split_string(s: &str, sep: char) -> (parts: Vec<String>)
    ensures
        parts.deep_view() == split_on(s@, sep),
{
    let n = s.unicode_len();
    let mut parts: Vec<String> = Vec::new();
    let mut start: usize = 0;
    let mut i: usize = 0;
    proof {
        assert(s@.skip(0) =~= s@);
        assert(parts.deep_view() =~= Seq::<Seq<char>>::empty());
        assert(parts.deep_view() + split_on(s@, sep) =~= split_on(s@, sep));
    }
    while i < n
        invariant
            n == s@.len(),
            start <= i <= n,
            forall|j: int| start <= j < i ==> s@[j] != sep,
            split_on(s@, sep) == parts.deep_view() + split_on(s@.skip(start as int), sep),
        decreases n - i,
    {
        if s.get_char(i) == sep {
            let piece = s.substring_char(start, i);
            proof {
                let t = s@.skip(start as int);
                assert forall|j: int| 0 <= j < i - start implies t[j] != sep by {
                    assert(t[j] == s@[start + j]);
                }
                lemma_first_index_found(t, sep, i - start);
                assert(t.take(i - start) =~= s@.subrange(start as int, i as int));
                assert(t.skip(i - start + 1) =~= s@.skip(i + 1));
                assert(split_on(t, sep) == seq![s@.subrange(start as int, i as int)] + split_on(
                    s@.skip(i + 1),
                    sep,
                ));
            }
            let ghost old_parts = parts.deep_view();
            parts.push(String::from_str(piece));
            proof {
                assert(parts.deep_view() =~= old_parts.push(piece@));
                assert(old_parts.push(piece@) =~= old_parts + seq![piece@]);
                assert(parts.deep_view() + split_on(s@.skip(i + 1), sep) =~= old_parts + (seq![
                    piece@,
                ] + split_on(s@.skip(i + 1), sep)));
            }
            start = i + 1;
        }
        i += 1;
    }
    let piece = s.substring_char(start, n);
    proof {
        let t = s@.skip(start as int);
        assert forall|j: int| 0 <= j < n - start implies t[j] != sep by {
            assert(t[j] == s@[start + j]);
        }
        lemma_first_index_found(t, sep, n - start);
        assert(t =~= s@.subrange(start as int, n as int));
        assert(split_on(t, sep) == seq![t]);
    }
    let ghost old_parts = parts.deep_view();
    parts.push(String::from_str(piece));
    proof {
        assert(parts.deep_view() =~= old_parts.push(piece@));
        assert(old_parts.push(piece@) =~= old_parts + seq![piece@]);
    }
    parts
}

/// Parses one semicolon-free clause: name, `=`, comma-separated values.
pub fn parse_filter_clause(c: &str) -> (f: FilterSpec)
    ensures
        f@ == parse_clause(c@),
{
    let n = c.unicode_len();
    let mut k: usize = 0;
    while k < n && c.get_char(k) != '='
        invariant
            n == c@.len(),
            0 <= k <= n,
            forall|j: int| 0 <= j < k ==> c@[j] != '=',
        decreases n - k,
    {
        k += 1;
    }
    proof {
        lemma_first_index_found(c@, '=', k as int);
    }
    if k == n {
        FilterSpec { name: String::from_str(c), values: None }
    } else {
        let name = c.substring_char(0, k);
        let rest = c.substring_char(k + 1, n);
        proof {
            assert(c@.subrange(0, k as int) =~= c@.take(k as int));
            assert(c@.subrange(k + 1, n as int) =~= c@.skip(k + 1));
        }
        let values = split_string(rest, ',');
        FilterSpec { name: String::from_str(name), values: Some(values) }
    }
}

/// Builds the executable form of the implicit running-state predicate.
pub fn running_filter() -> (f: FilterSpec)
    ensures
        f@ == running_state_filter(),
{
    let mut vals: Vec<String> = Vec::new();
    vals.push(String::from_str("running"));
    let f = FilterSpec {
        name: String::from_str("instance-state-name"),
        values: Some(vals),
    };
    proof {
        assert(f@.values == Some(seq!["running"@])) by {
            assert(f.values.deep_view() =~= Some(seq!["running"@]));
        }
    }
    f
}

/// Parses one raw filter string into a complete filter group: the implicit
/// running-state predicate followed by one filter per `;`-separated clause.
pub fn parse_filter_group(raw: &str) -> (g: Vec<FilterSpec>)
    ensures
        g.deep_view() == parse_group(raw@),
{
    let mut g: Vec<FilterSpec> = Vec::new();
    g.push(running_filter());
    let clauses = split_string(raw, ';');
    let ghost clause_models = split_on(raw@, ';');
    let mut i: usize = 0;
    while i < clauses.len()
        invariant
            clauses.deep_view() == clause_models,
            0 <= i <= clauses.len(),
            g.deep_view() == seq![running_state_filter()] + clause_models.take(i as int).map_values(
                |c: Seq<char>| parse_clause(c),
            ),
        decreases clauses.len() - i,
    {
        let f = parse_filter_clause(clauses[i].as_str());
        let ghost old_g = g.deep_view();
        g.push(f);
        proof {
            assert(clauses[i as int].deep_view() == clause_models[i as int]);
            assert(g.deep_view() =~= old_g.push(parse_clause(clause_models[i as int])));
            assert(g.deep_view() =~= seq![running_state_filter()] + clause_models.take(
                i + 1,
            ).map_values(|c: Seq<char>| parse_clause(c)));
        }
        i += 1;
    }
    proof {
        assert(clause_models.take(clause_models.len() as int) =~= clause_models);
    }
    g
}

/// Expands the raw filter strings into filter groups: one group per raw
/// string, or the single implicit group when none were supplied.  Every
/// group begins with the implicit running-state predicate.
pub fn build_filter_groups(raws: &Vec<String>) -> (groups: Vec<Vec<FilterSpec>>)
    ensures
        groups.deep_view().len() == if raws@.len() == 0 {
            1int
        } else {
            raws@.len() as int
        },
        raws@.len() == 0 ==> groups.deep_view() =~= seq![seq![running_state_filter()]],
        forall|i: int|
            0 <= i < raws@.len() ==> groups.deep_view()[i] == parse_group(raws@[i]@),
        forall|i: int|
            0 <= i < groups.deep_view().len() ==> groups.deep_view()[i].len() >= 1
                && groups.deep_view()[i][0] == running_state_filter(),
{
    let mut groups: Vec<Vec<FilterSpec>> = Vec::new();
    if raws.len() == 0 {
        let mut g: Vec<FilterSpec> = Vec::new();
        g.push(running_filter());
        let ghost gm = g.deep_view();
        groups.push(g);
        proof {
            assert(gm =~= seq![running_state_filter()]);
            assert(groups.deep_view() =~= seq![seq![running_state_filter()]]);
        }
    } else {
        let mut i: usize = 0;
        while i < raws.len()
            invariant
                0 <= i <= raws@.len(),
                groups.deep_view().len() == i,
                forall|j: int| 0 <= j < i ==> groups.deep_view()[j] == parse_group(raws@[j]@),
            decreases raws@.len() - i,
        {
            let g = parse_filter_group(raws[i].as_str());
            let ghost old_groups = groups.deep_view();
            groups.push(g);
            proof {
                assert(groups.deep_view() =~= old_groups.push(parse_group(raws@[i as int]@)));
            }
            i += 1;
        }
    }
    proof {
        assert forall|i: int| 0 <= i < groups.deep_view().len() implies groups.deep_view()[i].len()
            >= 1 && groups.deep_view()[i][0] == running_state_filter() by {
            if raws@.len() > 0 {
                assert(groups.deep_view()[i] == parse_group(raws@[i]@));
            }
        }
    }
    groups
}

} // verus!
