use vstd::prelude::*;

verus! {

/// The recognized frame-stream formats, as a closed tagged selection
/// resolved once at configuration time.
#[derive(Clone, Copy, PartialEq, Eq, Structural, Debug)]
pub enum DatasetFormat {
    SlamTb,
    IndoorLidar,
    TumRgbd,
}

/// Rejection of an unrecognized format string, carrying the offender.
#[derive(Clone, PartialEq, Eq, Debug)]
pub enum DatasetError {
    InvalidFormat(String),
}

/// A resolved dataset selection: which loader to use, and where it reads.
#[derive(Clone, PartialEq, Eq, Debug)]
pub struct DatasetSpec {
    pub format: DatasetFormat,
    pub path: String,
}

/// Resolve a format name to the loader selection: `"slamtb"`, `"ilrgbd"` and
/// `"tum"` are recognized, anything else is rejected.
pub fn create_dataset_from_string(format: String, path: String) -> (r: Result<
    DatasetSpec,
    DatasetError,
>)
    ensures
        r is Ok ==> r->Ok_0.path@ == path@,
        (r matches Ok(d) && d.format == DatasetFormat::SlamTb) <==> format@ == "slamtb"@,
        (r matches Ok(d) && d.format == DatasetFormat::IndoorLidar) <==> format@ == "ilrgbd"@,
        (r matches Ok(d) && d.format == DatasetFormat::TumRgbd) <==> format@ == "tum"@,
        r is Err <==> (format@ != "slamtb"@ && format@ != "ilrgbd"@ && format@ != "tum"@),
        r matches Err(e) ==> (e matches DatasetError::InvalidFormat(f) && f@ == format@),
{
    proof {
        reveal_strlit("slamtb");
        reveal_strlit("ilrgbd");
        reveal_strlit("tum");
        assert("slamtb"@ != "ilrgbd"@) by {
            assert("slamtb"@[0] == 's');
            assert("ilrgbd"@[0] == 'i');
        };
        assert("slamtb"@ != "tum"@) by {
            assert("slamtb"@.len() == 6);
            assert("tum"@.len() == 3);
        };
        assert("ilrgbd"@ != "tum"@) by {
            assert("ilrgbd"@.len() == 6);
            assert("tum"@.len() == 3);
        };
    }
    if format == "slamtb".to_owned() {
        Ok(DatasetSpec { format: DatasetFormat::SlamTb, path })
    } else if format == "ilrgbd".to_owned() {
        Ok(DatasetSpec { format: DatasetFormat::IndoorLidar, path })
    } else if format == "tum".to_owned() {
        Ok(DatasetSpec { format: DatasetFormat::TumRgbd, path })
    } else {
        Err(DatasetError::InvalidFormat(format))
    }
}

} // verus!
