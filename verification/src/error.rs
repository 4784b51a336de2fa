use vstd::prelude::*;

use crate::text::{decimal, digits_value, is_numeral, lemma_decimal_reads_back, push_decimal};

verus! {

/// The ways in which reading a raster into H3 cells can fail.
#[derive(Debug)]
pub enum Error {
    InvalidSRS,
    BandOutOfRange,
    H3ResolutionOutOfRange,
    NoGeotransformFound,
    GeotransformFailed,
    BandNotReadable(u8),
    /// An error reported by GDAL, held as its debug rendering.
    GDAL(String),
    ConversionFailed,
    OutOfBounds,
}

impl Error {
    /// The human-readable description of the error.
    pub open spec fn spec_message(&self) -> Seq<char> {
        match self {
            Error::InvalidSRS => "Dataset has to be WGS:84"@,
            Error::BandOutOfRange => "Band out of range"@,
            Error::H3ResolutionOutOfRange => "H3 resolution must be between 0 and 15"@,
            Error::NoGeotransformFound => "Dataset has no geotransform"@,
            Error::GeotransformFailed => "Geotransform failed"@,
            Error::BandNotReadable(band_idx) => "Band "@ + decimal(*band_idx as nat)
                + " can not be read"@,
            Error::GDAL(gdal_err) => "GDAL: "@ + gdal_err@,
            Error::ConversionFailed => "Conversion failed"@,
            Error::OutOfBounds => "Out of bounds"@,
        }
    }

    /// Renders the error as text.
    pub fn to_string(&self) -> (m: String)
        ensures
            m@ == self.spec_message(),
            self matches Error::BandNotReadable(band_idx) ==> {
                &&& m@.len() > 21
                &&& m@.subrange(0, 5) == "Band "@
                &&& m@.subrange(m@.len() - 16, m@.len() as int) == " can not be read"@
                &&& is_numeral(m@.subrange(5, m@.len() - 16), 10)
                &&& digits_value(m@.subrange(5, m@.len() - 16), 10) == band_idx
            },
    {
        proof {
            if let Error::BandNotReadable(band_idx) = self {
                reveal_strlit("Band ");
                reveal_strlit(" can not be read");
                lemma_decimal_reads_back(*band_idx as nat);
                let msg = self.spec_message();
                let d = decimal(*band_idx as nat);
                assert(msg.subrange(5, msg.len() - 16) =~= d);
                assert(msg.subrange(0, 5) =~= "Band "@);
                assert(msg.subrange(msg.len() - 16, msg.len() as int) =~= " can not be read"@);
            }
        }
        match self {
            Error::InvalidSRS => String::from_str("Dataset has to be WGS:84"),
            Error::BandOutOfRange => String::from_str("Band out of range"),
            Error::H3ResolutionOutOfRange => String::from_str(
                "H3 resolution must be between 0 and 15",
            ),
            Error::NoGeotransformFound => String::from_str("Dataset has no geotransform"),
            Error::GeotransformFailed => String::from_str("Geotransform failed"),
            Error::BandNotReadable(band_idx) => {
                let mut m = String::from_str("Band ");
                push_decimal(&mut m, *band_idx as u64);
                m.append(" can not be read");
                m
            },
            Error::GDAL(gdal_err) => {
                let mut m = String::from_str("GDAL: ");
                m.append(gdal_err.as_str());
                m
            },
            Error::ConversionFailed => String::from_str("Conversion failed"),
            Error::OutOfBounds => String::from_str("Out of bounds"),
        }
    }
}

} // verus!
