use vstd::prelude::*;

verus! {

/// The path names a file with the extension `fidl`: it ends in `.fidl` and
/// the file name is more than that extension. Paths use `/` as separator and
/// end in the file name.
pub open spec fn names_fidl_file(p: Seq<char>) -> bool {
    &&& p.len() > 5
    &&& p.subrange(p.len() - 5, p.len() as int) == ".fidl"@
    &&& p[p.len() - 6] != '/'
}

pub fn is_fidl_file(path: &str) -> (b: bool)
    ensures
        b == names_fidl_file(path@),
{
    let n = path.unicode_len();
    if n <= 5 {
        return false;
    }
    let ext = path.substring_char(n - 5, n);
    proof {
        reveal_strlit(".fidl");
    }
    let ok = ext.get_char(0) == '.' && ext.get_char(1) == 'f' && ext.get_char(2) == 'i'
        && ext.get_char(3) == 'd' && ext.get_char(4) == 'l';
    if ok {
        assert(ext@ =~= ".fidl"@);
    } else {
        assert(ext@ != ".fidl"@);
    }
    ok && path.get_char(n - 6) != '/'
}

} // verus!
