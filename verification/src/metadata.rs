//! The metadata string shown beside a photo: newline-separated `Label: value`
//! lines for whichever of the recognized fields are present. Absent fields are
//! simply omitted; the aperture value carries an `f/` prefix.

use vstd::prelude::*;
use vstd::string::StringExecFns;

verus! {

/// The recognized metadata fields of one photo, each optional. Extracting them
/// from a file is outside work; this type carries whatever was found.
pub struct ExifFields {
    pub date_taken: Option<String>,
    pub camera: Option<String>,
    pub focal_length: Option<String>,
    pub iso: Option<String>,
    pub aperture: Option<String>,
    pub shutter_speed: Option<String>,
}

/// One `Label: value` line, or nothing when the field is absent.
pub open spec fn spec_field_line(prefix: Seq<char>, field: Option<String>) -> Seq<char> {
    match field {
        Some(v) => prefix + v@ + "\n"@,
        None => Seq::<char>::empty(),
    }
}

/// The whole metadata string: the present fields, in a fixed order.
pub open spec fn spec_metadata_text(f: ExifFields) -> Seq<char> {
    spec_field_line("Date Taken: "@, f.date_taken) + spec_field_line("Camera: "@, f.camera)
        + spec_field_line("Focal Length: "@, f.focal_length) + spec_field_line("ISO: "@, f.iso)
        + spec_field_line("Aperture: f/"@, f.aperture) + spec_field_line(
        "Shutter Speed: "@,
        f.shutter_speed,
    )
}

/// Appends one optional field as a `Label: value` line.
fn push_field_line(out: &mut String, prefix: &str, field: &Option<String>)
    ensures
        final(out)@ == old(out)@ + spec_field_line(prefix@, *field),
{
    match field {
        Some(v) => {
            out.append(prefix);
            out.append(v.as_str());
            out.append("\n");
        },
        None => {
            assert(old(out)@ + spec_field_line(prefix@, *field) =~= old(out)@);
        },
    }
}

/// Builds the metadata text for one photo from its extracted fields.
pub fn format_exif_data(f: &ExifFields) -> (r: String)
    ensures
        r@ == spec_metadata_text(*f),
{
    let mut r = String::new();
    push_field_line(&mut r, "Date Taken: ", &f.date_taken);
    push_field_line(&mut r, "Camera: ", &f.camera);
    push_field_line(&mut r, "Focal Length: ", &f.focal_length);
    push_field_line(&mut r, "ISO: ", &f.iso);
    push_field_line(&mut r, "Aperture: f/", &f.aperture);
    push_field_line(&mut r, "Shutter Speed: ", &f.shutter_speed);
    proof {
        assert(r@ =~= spec_metadata_text(*f));
    }
    r
}

} // verus!
