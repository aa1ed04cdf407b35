use vstd::prelude::*;

verus! {

/// The mathematical form of a flat list of `(name, value)` pairs, the shape in
/// which records are written to and read from the store.
pub open spec fn fields_view(fields: Seq<(String, String)>) -> Seq<(Seq<char>, Seq<char>)> {
    fields.map_values(|p: (String, String)| (p.0@, p.1@))
}

/// The value of the first pair named `name`, if any.
pub open spec fn lookup_field(fields: Seq<(Seq<char>, Seq<char>)>, name: Seq<char>) -> Option<
    Seq<char>,
>
    decreases fields.len(),
{
    if fields.len() == 0 {
        None
    } else if fields[0].0 == name {
        Some(fields[0].1)
    } else {
        lookup_field(fields.drop_first(), name)
    }
}

proof fn lemma_lookup_skip(fields: Seq<(Seq<char>, Seq<char>)>, name: Seq<char>, i: int)
    requires
        0 <= i < fields.len(),
        fields[i].0 != name,
    ensures
        lookup_field(fields.subrange(i, fields.len() as int), name) == lookup_field(
            fields.subrange(i + 1, fields.len() as int),
            name,
        ),
{
    let s = fields.subrange(i, fields.len() as int);
    assert(s.drop_first() =~= fields.subrange(i + 1, fields.len() as int));
}

/// The value of the first pair whose name is `name`.
pub fn field_value(fields: &Vec<(String, String)>, name: &str) -> (r: Option<String>)
    ensures
        r matches Some(v) ==> lookup_field(fields_view(fields@), name@) == Some(v@),
        r is None ==> lookup_field(fields_view(fields@), name@) is None,
{
    let ghost fv = fields_view(fields@);
    let key = String::from_str(name);
    let mut i: usize = 0;
    assert(fv.subrange(0, fv.len() as int) =~= fv);
    while i < fields.len()
        invariant
            0 <= i <= fields.len(),
            key@ == name@,
            fv == fields_view(fields@),
            lookup_field(fv, name@) == lookup_field(fv.subrange(i as int, fv.len() as int), name@),
        decreases fields.len() - i,
    {
        if fields[i].0 == key {
            let ghost s = fv.subrange(i as int, fv.len() as int);
            assert(s[0] == fv[i as int]);
            return Some(fields[i].1.clone());
        }
        proof {
            lemma_lookup_skip(fv, name@, i as int);
        }
        i = i + 1;
    }
    assert(fv.subrange(i as int, fv.len() as int).len() == 0);
    None
}

} // verus!
