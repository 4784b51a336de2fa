use h3ron::error::Error;

#[test]
fn error_messages() {
    assert_eq!(Error::InvalidSRS.to_string(), "Dataset has to be WGS:84");
    assert_eq!(Error::BandOutOfRange.to_string(), "Band out of range");
    assert_eq!(
        Error::H3ResolutionOutOfRange.to_string(),
        "H3 resolution must be between 0 and 15"
    );
    assert_eq!(Error::NoGeotransformFound.to_string(), "Dataset has no geotransform");
    assert_eq!(Error::GeotransformFailed.to_string(), "Geotransform failed");
    assert_eq!(Error::ConversionFailed.to_string(), "Conversion failed");
    assert_eq!(Error::OutOfBounds.to_string(), "Out of bounds");
}

#[test]
fn band_index_is_written_in_decimal() {
    assert_eq!(Error::BandNotReadable(0).to_string(), "Band 0 can not be read");
    assert_eq!(Error::BandNotReadable(7).to_string(), "Band 7 can not be read");
    assert_eq!(Error::BandNotReadable(42).to_string(), "Band 42 can not be read");
    assert_eq!(Error::BandNotReadable(255).to_string(), "Band 255 can not be read");
}

#[test]
fn gdal_error_is_prefixed() {
    assert_eq!(
        Error::GDAL("NullPointer".to_string()).to_string(),
        "GDAL: NullPointer"
    );
}
