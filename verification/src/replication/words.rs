//! The words of the replication files, letter by letter.

use vstd::prelude::*;

use crate::lines::{is_space, plain};

verus! {

/// The keys of the replication files are plain words, all different.
pub proof fn lemma_words()
    ensures
        plain("epoch"@),
        plain("lsn"@),
        plain("shard"@),
        plain("total"@),
        plain("written"@),
        "epoch"@ != "lsn"@,
        "epoch"@ != "shard"@,
        "epoch"@ != "total"@,
        "epoch"@ != "written"@,
        "lsn"@ != "shard"@,
        "lsn"@ != "total"@,
        "lsn"@ != "written"@,
        "shard"@ != "total"@,
        "shard"@ != "written"@,
        "total"@ != "written"@,
{
    reveal_strlit("epoch");
    reveal_strlit("lsn");
    reveal_strlit("shard");
    reveal_strlit("total");
    reveal_strlit("written");
    assert forall|k: int| 0 <= k < "epoch"@.len() implies !is_space(#[trigger] "epoch"@[k]) && "epoch"@[k]
        != '=' by {
        if k == 0 {
            assert("epoch"@[0] == 'e');
        }
        if k == 1 {
            assert("epoch"@[1] == 'p');
        }
        if k == 2 {
            assert("epoch"@[2] == 'o');
        }
        if k == 3 {
            assert("epoch"@[3] == 'c');
        }
        if k == 4 {
            assert("epoch"@[4] == 'h');
        }
    }
    assert forall|k: int| 0 <= k < "lsn"@.len() implies !is_space(#[trigger] "lsn"@[k]) && "lsn"@[k]
        != '=' by {
        if k == 0 {
            assert("lsn"@[0] == 'l');
        }
        if k == 1 {
            assert("lsn"@[1] == 's');
        }
        if k == 2 {
            assert("lsn"@[2] == 'n');
        }
    }
    assert forall|k: int| 0 <= k < "shard"@.len() implies !is_space(#[trigger] "shard"@[k]) && "shard"@[k]
        != '=' by {
        if k == 0 {
            assert("shard"@[0] == 's');
        }
        if k == 1 {
            assert("shard"@[1] == 'h');
        }
        if k == 2 {
            assert("shard"@[2] == 'a');
        }
        if k == 3 {
            assert("shard"@[3] == 'r');
        }
        if k == 4 {
            assert("shard"@[4] == 'd');
        }
    }
    assert forall|k: int| 0 <= k < "total"@.len() implies !is_space(#[trigger] "total"@[k]) && "total"@[k]
        != '=' by {
        if k == 0 {
            assert("total"@[0] == 't');
        }
        if k == 1 {
            assert("total"@[1] == 'o');
        }
        if k == 2 {
            assert("total"@[2] == 't');
        }
        if k == 3 {
            assert("total"@[3] == 'a');
        }
        if k == 4 {
            assert("total"@[4] == 'l');
        }
    }
    assert forall|k: int| 0 <= k < "written"@.len() implies !is_space(#[trigger] "written"@[k]) && "written"@[k]
        != '=' by {
        if k == 0 {
            assert("written"@[0] == 'w');
        }
        if k == 1 {
            assert("written"@[1] == 'r');
        }
        if k == 2 {
            assert("written"@[2] == 'i');
        }
        if k == 3 {
            assert("written"@[3] == 't');
        }
        if k == 4 {
            assert("written"@[4] == 't');
        }
        if k == 5 {
            assert("written"@[5] == 'e');
        }
        if k == 6 {
            assert("written"@[6] == 'n');
        }
    }
    assert("epoch"@.len() == 5 && "lsn"@.len() == 3);
    assert("epoch"@[0] == 'e' && "shard"@[0] == 's');
    assert("epoch"@[0] == 'e' && "total"@[0] == 't');
    assert("epoch"@.len() == 5 && "written"@.len() == 7);
    assert("lsn"@.len() == 3 && "shard"@.len() == 5);
    assert("lsn"@.len() == 3 && "total"@.len() == 5);
    assert("lsn"@.len() == 3 && "written"@.len() == 7);
    assert("shard"@[0] == 's' && "total"@[0] == 't');
    assert("shard"@.len() == 5 && "written"@.len() == 7);
    assert("total"@.len() == 5 && "written"@.len() == 7);
}

} // verus!
