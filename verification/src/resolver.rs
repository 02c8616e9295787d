//! Relationship resolution: finding the foreign-key column pair between two
//! tables, and building the linker record of a many-to-many association.

use vstd::prelude::*;
use crate::error::IntelError;
use crate::record::Record;
use crate::record::spec_get;
use crate::schema::ForeignKeyPair;
use crate::schema::Table;
use crate::schema::TableModel;
use crate::schema::refers_to;
use crate::text::str_eq;
use crate::value::Value;

verus! {

/// Finds the foreign-key column pair of `table` that refers to `referred`.
///
/// Exactly one pair is expected; zero pairs or more than one are
/// schema-consistency errors, reported rather than guessed around.
pub fn find_fk_pair<'a>(table: &'a Table, referred: &str) -> (r: Result<
    &'a ForeignKeyPair,
    IntelError,
>)
    ensures
        r is Ok <==> table@.fk_pairs_to(referred@).len() == 1,
        r matches Ok(f) ==> *f == table@.fk_pairs_to(referred@)[0],
        table@.fk_pairs_to(referred@).len() == 0 ==> (r matches Err(e) && e matches
            IntelError::NoForeignKeyPair {
                table: t,
                referred_table: rt,
            } && t@ == table@.name && rt@ == referred@),
        table@.fk_pairs_to(referred@).len() > 1 ==> (r matches Err(e) && e matches
            IntelError::AmbiguousForeignKeyPair {
                table: t,
                referred_table: rt,
            } && t@ == table@.name && rt@ == referred@),
{
    let ghost pred = refers_to(referred@);
    let ghost fks = table@.foreign_keys;
    let n = table.foreign_keys.len();
    let mut found: Option<usize> = None;
    let mut i: usize = 0;
    while i < n
        invariant
            n == fks.len(),
            i <= n,
            fks == table@.foreign_keys,
            pred == refers_to(referred@),
            match found {
                None => fks.take(i as int).filter(pred).len() == 0,
                Some(j) => j < i && fks.take(i as int).filter(pred) =~= seq![fks[j as int]],
            },
        decreases n - i,
    {
        proof {
            assert(fks.take(i as int + 1) =~= fks.take(i as int).push(fks[i as int]));
            fks.take(i as int).lemma_filter_push(fks[i as int], pred);
        }
        if str_eq(table.foreign_keys[i].referred_table.as_str(), referred) {
            proof {
                assert(pred(fks[i as int]));
            }
            if found.is_some() {
                proof {
                    fks.lemma_filter_take_len(pred, i as int + 1);
                }
                return Err(
                    IntelError::AmbiguousForeignKeyPair {
                        table: table.name.clone(),
                        referred_table: String::from_str(referred),
                    },
                );
            }
            found = Some(i);
        } else {
            proof {
                assert(!pred(fks[i as int]));
            }
        }
        i += 1;
    }
    proof {
        assert(fks.take(n as int) =~= fks);
    }
    match found {
        Some(j) => Ok(&table.foreign_keys[j]),
        None => Err(
            IntelError::NoForeignKeyPair {
                table: table.name.clone(),
                referred_table: String::from_str(referred),
            },
        ),
    }
}

/// The pairs of a linker record: the main pair's local column holding the
/// main record's referenced value, then the indirect pair's local column
/// holding the indirect record's. When the two local columns coincide
/// (a degenerate schema), the single pair holds the indirect value, set
/// last.
pub open spec fn linker_content(
    main_local: Seq<char>,
    mv: Value,
    ind_local: Seq<char>,
    iv: Value,
) -> Seq<(Seq<char>, Value)> {
    if ind_local == main_local {
        seq![(ind_local, iv)]
    } else {
        seq![(main_local, mv), (ind_local, iv)]
    }
}

/// The content of a linker record built from the two resolved foreign-key
/// pairs: the indirect pair's local column (inserted last) wins on a name
/// clash, every other name is absent.
pub open spec fn linker_lookup(
    main_local: Seq<char>,
    mv: Value,
    ind_local: Seq<char>,
    iv: Value,
    x: Seq<char>,
) -> Option<Value> {
    if x == ind_local {
        Some(iv)
    } else if x == main_local {
        Some(mv)
    } else {
        None
    }
}

/// Whether both foreign-key pairs of the linker table resolve uniquely.
pub open spec fn linker_pairs_ok(
    linker: TableModel,
    main: TableModel,
    indirect: TableModel,
) -> bool {
    linker.fk_pairs_to(main.name).len() == 1 && linker.fk_pairs_to(indirect.name).len() == 1
}

/// Whether a linker record can be built: both pairs resolve uniquely and
/// both parent records carry the referenced values.
pub open spec fn create_linker_ok(
    linker: TableModel,
    main: TableModel,
    indirect: TableModel,
    mrec: Seq<(Seq<char>, Value)>,
    irec: Seq<(Seq<char>, Value)>,
) -> bool {
    &&& linker_pairs_ok(linker, main, indirect)
    &&& spec_get(mrec, linker.fk_pairs_to(main.name)[0].referred_column@) is Some
    &&& spec_get(irec, linker.fk_pairs_to(indirect.name)[0].referred_column@) is Some
}

/// Builds the linker record of a many-to-many association: a fresh record
/// holding only the linker table's two foreign-key columns, one set to the
/// main record's referenced value, the other to the indirect record's.
pub fn create_linker_record(
    main_table: &Table,
    main_record: &Record,
    linker_table: &Table,
    indirect_table: &Table,
    indirect_record: &Record,
) -> (r: Result<Record, IntelError>)
    ensures
        r is Ok <==> create_linker_ok(
            linker_table@,
            main_table@,
            indirect_table@,
            main_record@,
            indirect_record@,
        ),
        r matches Ok(rec) ==> ({
            let mf = linker_table@.fk_pairs_to(main_table@.name)[0];
            let inf = linker_table@.fk_pairs_to(indirect_table@.name)[0];
            &&& rec.wf()
            &&& rec@ == linker_content(
                mf.local_column@,
                spec_get(main_record@, mf.referred_column@)->0,
                inf.local_column@,
                spec_get(indirect_record@, inf.referred_column@)->0,
            )
            &&& forall|x: Seq<char>|
                spec_get(rec@, x) == linker_lookup(
                    mf.local_column@,
                    spec_get(main_record@, mf.referred_column@)->0,
                    inf.local_column@,
                    spec_get(indirect_record@, inf.referred_column@)->0,
                    x,
                )
        }),
        linker_table@.fk_pairs_to(main_table@.name).len() == 0 ==> (r matches Err(e) && e matches
            IntelError::NoForeignKeyPair {
                table: t,
                referred_table: rt,
            } && t@ == linker_table@.name && rt@ == main_table@.name),
        linker_table@.fk_pairs_to(main_table@.name).len() > 1 ==> (r matches Err(e) && e matches
            IntelError::AmbiguousForeignKeyPair {
                table: t,
                referred_table: rt,
            } && t@ == linker_table@.name && rt@ == main_table@.name),
        linker_table@.fk_pairs_to(main_table@.name).len() == 1 && linker_table@.fk_pairs_to(
            indirect_table@.name,
        ).len() == 0 ==> (r matches Err(e) && e matches IntelError::NoForeignKeyPair {
            table: t,
            referred_table: rt,
        } && t@ == linker_table@.name && rt@ == indirect_table@.name),
        linker_table@.fk_pairs_to(main_table@.name).len() == 1 && linker_table@.fk_pairs_to(
            indirect_table@.name,
        ).len() > 1 ==> (r matches Err(e) && e matches IntelError::AmbiguousForeignKeyPair {
            table: t,
            referred_table: rt,
        } && t@ == linker_table@.name && rt@ == indirect_table@.name),
        linker_pairs_ok(linker_table@, main_table@, indirect_table@) && spec_get(
            main_record@,
            linker_table@.fk_pairs_to(main_table@.name)[0].referred_column@,
        ) is None ==> (r matches Err(e) && e matches IntelError::MissingColumnValue {
            table: t,
            column: c,
        } && t@ == main_table@.name && c@ == linker_table@.fk_pairs_to(
            main_table@.name,
        )[0].referred_column@),
        linker_pairs_ok(linker_table@, main_table@, indirect_table@) && spec_get(
            main_record@,
            linker_table@.fk_pairs_to(main_table@.name)[0].referred_column@,
        ) is Some && spec_get(
            indirect_record@,
            linker_table@.fk_pairs_to(indirect_table@.name)[0].referred_column@,
        ) is None ==> (r matches Err(e) && e matches IntelError::MissingColumnValue {
            table: t,
            column: c,
        } && t@ == indirect_table@.name && c@ == linker_table@.fk_pairs_to(
            indirect_table@.name,
        )[0].referred_column@),
{
    let main_fk = match find_fk_pair(linker_table, main_table.name.as_str()) {
        Ok(f) => f,
        Err(e) => {
            return Err(e);
        },
    };
    let indirect_fk = match find_fk_pair(linker_table, indirect_table.name.as_str()) {
        Ok(f) => f,
        Err(e) => {
            return Err(e);
        },
    };
    let main_value = match main_record.get_value(main_fk.referred_column.as_str()) {
        Some(v) => v.clone_value(),
        None => {
            return Err(
                IntelError::MissingColumnValue {
                    table: main_table.name.clone(),
                    column: main_fk.referred_column.clone(),
                },
            );
        },
    };
    let indirect_value = match indirect_record.get_value(indirect_fk.referred_column.as_str()) {
        Some(v) => v.clone_value(),
        None => {
            return Err(
                IntelError::MissingColumnValue {
                    table: indirect_table.name.clone(),
                    column: indirect_fk.referred_column.clone(),
                },
            );
        },
    };
    let mut pairs: Vec<(String, Value)> = Vec::new();
    if str_eq(indirect_fk.local_column.as_str(), main_fk.local_column.as_str()) {
        pairs.push((indirect_fk.local_column.clone(), indirect_value));
    } else {
        pairs.push((main_fk.local_column.clone(), main_value));
        pairs.push((indirect_fk.local_column.clone(), indirect_value));
    }
    let linker_record = Record { pairs };
    proof {
        let mf = linker_table@.fk_pairs_to(main_table@.name)[0];
        let inf = linker_table@.fk_pairs_to(indirect_table@.name)[0];
        let mv = spec_get(main_record@, mf.referred_column@)->0;
        let iv = spec_get(indirect_record@, inf.referred_column@)->0;
        assert(linker_record@ =~= linker_content(
            mf.local_column@,
            mv,
            inf.local_column@,
            iv,
        ));
        assert forall|x: Seq<char>| true implies spec_get(linker_record@, x) == linker_lookup(
            mf.local_column@,
            mv,
            inf.local_column@,
            iv,
            x,
        ) by {
            reveal_with_fuel(crate::record::spec_get_from, 4);
        }
    }
    Ok(linker_record)
}

} // verus!
