//! The record of one course.

use vstd::prelude::*;

use crate::text::same_text;

verus! {

/// Sentinel value of every field that could not be extracted.
pub const NA: &'static str = "NA";

/// All fields of a single Coventry University course.
/// A field that cannot be found on the page is set to `NA`.
#[derive(Debug, Default, Clone)]
pub struct CourseData {
    // Identity
    pub program_course_name: String,
    pub university_name: String,
    pub course_website_url: String,
    pub campus: String,
    pub country: String,
    pub address: String,
    // Course details
    pub study_level: String,
    pub course_duration: String,
    pub all_intakes_available: String,
    pub mandatory_documents_required: String,
    pub yearly_tuition_fee: String,
    pub scholarship_availability: String,
    // Admissions
    pub gre_gmat_mandatory_min_score: String,
    pub indian_regional_institution_restrictions: String,
    pub class_12_boards_accepted: String,
    pub gap_year_max_accepted: String,
    pub mandatory_work_exp: String,
    pub max_backlogs: String,
    pub ug_academic_min_gpa: String,
    pub twelfth_pass_min_cgpa: String,
    // English proficiency
    pub min_ielts: String,
    pub min_pte: String,
    pub min_toefl: String,
    pub min_duolingo: String,
    pub kaplan_test_of_english: String,
    pub english_waiver_class12: String,
    pub english_waiver_moi: String,
}

/// The texts that a `CourseData` holds.
#[verifier::ext_equal]
pub struct CourseView {
    // Identity
    pub program_course_name: Seq<char>,
    pub university_name: Seq<char>,
    pub course_website_url: Seq<char>,
    pub campus: Seq<char>,
    pub country: Seq<char>,
    pub address: Seq<char>,
    // Course details
    pub study_level: Seq<char>,
    pub course_duration: Seq<char>,
    pub all_intakes_available: Seq<char>,
    pub mandatory_documents_required: Seq<char>,
    pub yearly_tuition_fee: Seq<char>,
    pub scholarship_availability: Seq<char>,
    // Admissions
    pub gre_gmat_mandatory_min_score: Seq<char>,
    pub indian_regional_institution_restrictions: Seq<char>,
    pub class_12_boards_accepted: Seq<char>,
    pub gap_year_max_accepted: Seq<char>,
    pub mandatory_work_exp: Seq<char>,
    pub max_backlogs: Seq<char>,
    pub ug_academic_min_gpa: Seq<char>,
    pub twelfth_pass_min_cgpa: Seq<char>,
    // English proficiency
    pub min_ielts: Seq<char>,
    pub min_pte: Seq<char>,
    pub min_toefl: Seq<char>,
    pub min_duolingo: Seq<char>,
    pub kaplan_test_of_english: Seq<char>,
    pub english_waiver_class12: Seq<char>,
    pub english_waiver_moi: Seq<char>,
}

impl View for CourseData {
    type V = CourseView;

    open spec fn view(&self) -> CourseView {
        CourseView {
            program_course_name: self.program_course_name@,
            university_name: self.university_name@,
            course_website_url: self.course_website_url@,
            campus: self.campus@,
            country: self.country@,
            address: self.address@,
            study_level: self.study_level@,
            course_duration: self.course_duration@,
            all_intakes_available: self.all_intakes_available@,
            mandatory_documents_required: self.mandatory_documents_required@,
            yearly_tuition_fee: self.yearly_tuition_fee@,
            scholarship_availability: self.scholarship_availability@,
            gre_gmat_mandatory_min_score: self.gre_gmat_mandatory_min_score@,
            indian_regional_institution_restrictions: self.indian_regional_institution_restrictions@,
            class_12_boards_accepted: self.class_12_boards_accepted@,
            gap_year_max_accepted: self.gap_year_max_accepted@,
            mandatory_work_exp: self.mandatory_work_exp@,
            max_backlogs: self.max_backlogs@,
            ug_academic_min_gpa: self.ug_academic_min_gpa@,
            twelfth_pass_min_cgpa: self.twelfth_pass_min_cgpa@,
            min_ielts: self.min_ielts@,
            min_pte: self.min_pte@,
            min_toefl: self.min_toefl@,
            min_duolingo: self.min_duolingo@,
            kaplan_test_of_english: self.kaplan_test_of_english@,
            english_waiver_class12: self.english_waiver_class12@,
            english_waiver_moi: self.english_waiver_moi@,
        }
    }
}

impl CourseView {
    /// The field texts, in the order of the record.
    pub open spec fn fields(self) -> Seq<Seq<char>> {
        seq![
            self.program_course_name,
            self.university_name,
            self.course_website_url,
            self.campus,
            self.country,
            self.address,
            self.study_level,
            self.course_duration,
            self.all_intakes_available,
            self.mandatory_documents_required,
            self.yearly_tuition_fee,
            self.scholarship_availability,
            self.gre_gmat_mandatory_min_score,
            self.indian_regional_institution_restrictions,
            self.class_12_boards_accepted,
            self.gap_year_max_accepted,
            self.mandatory_work_exp,
            self.max_backlogs,
            self.ug_academic_min_gpa,
            self.twelfth_pass_min_cgpa,
            self.min_ielts,
            self.min_pte,
            self.min_toefl,
            self.min_duolingo,
            self.kaplan_test_of_english,
            self.english_waiver_class12,
            self.english_waiver_moi,
        ]
    }

    /// The number of fields that hold real data.
    pub open spec fn filled(self) -> nat {
        filled_among(self.fields())
    }

    /// Whether the course name was found.
    pub open spec fn valid(self) -> bool {
        self.program_course_name != NA@
    }

    /// The record of a course of which only the URL is known.
    pub open spec fn empty(url: Seq<char>) -> CourseView {
        CourseView {
            program_course_name: NA@,
            university_name: "Coventry University"@,
            course_website_url: url,
            campus: NA@,
            country: "United Kingdom"@,
            address: "Priory Street, Coventry, CV1 5FB, United Kingdom"@,
            study_level: NA@,
            course_duration: NA@,
            all_intakes_available: NA@,
            mandatory_documents_required: NA@,
            yearly_tuition_fee: NA@,
            scholarship_availability: NA@,
            gre_gmat_mandatory_min_score: NA@,
            indian_regional_institution_restrictions: NA@,
            class_12_boards_accepted: NA@,
            gap_year_max_accepted: NA@,
            mandatory_work_exp: NA@,
            max_backlogs: NA@,
            ug_academic_min_gpa: NA@,
            twelfth_pass_min_cgpa: NA@,
            min_ielts: NA@,
            min_pte: NA@,
            min_toefl: NA@,
            min_duolingo: NA@,
            kaplan_test_of_english: NA@,
            english_waiver_class12: NA@,
            english_waiver_moi: NA@,
        }
    }
}

/// How many of several field texts are not `NA`.
pub open spec fn filled_among(fields: Seq<Seq<char>>) -> nat {
    fields.filter(|f: Seq<char>| f != NA@).len()
}

/// How many of several field texts are `NA`.
pub open spec fn missing_among(fields: Seq<Seq<char>>) -> nat {
    fields.filter(|f: Seq<char>| f == NA@).len()
}

/// A field is either filled or `NA`: the two numbers add up.
pub proof fn law_filled_and_missing(fields: Seq<Seq<char>>)
    ensures
        filled_among(fields) + missing_among(fields) == fields.len(),
    decreases fields.len(),
{
    reveal(Seq::filter);
    if fields.len() > 0 {
        law_filled_and_missing(fields.drop_last());
    }
}

impl CourseData {
    /// Total number of fields of the record.
    pub const FIELD_COUNT: usize = 27;

    /// Creates a record with all variable fields set to `NA`.
    /// Fields that are the same for all Coventry courses are pre-filled.
    pub fn new_empty(url: &str) -> (result: Self)
        ensures
            result@ == CourseView::empty(url@),
    {
        CourseData {
            program_course_name: NA.to_string(),
            university_name: "Coventry University".to_string(),
            course_website_url: url.to_string(),
            campus: NA.to_string(),
            country: "United Kingdom".to_string(),
            address: "Priory Street, Coventry, CV1 5FB, United Kingdom".to_string(),
            study_level: NA.to_string(),
            course_duration: NA.to_string(),
            all_intakes_available: NA.to_string(),
            mandatory_documents_required: NA.to_string(),
            yearly_tuition_fee: NA.to_string(),
            scholarship_availability: NA.to_string(),
            gre_gmat_mandatory_min_score: NA.to_string(),
            indian_regional_institution_restrictions: NA.to_string(),
            class_12_boards_accepted: NA.to_string(),
            gap_year_max_accepted: NA.to_string(),
            mandatory_work_exp: NA.to_string(),
            max_backlogs: NA.to_string(),
            ug_academic_min_gpa: NA.to_string(),
            twelfth_pass_min_cgpa: NA.to_string(),
            min_ielts: NA.to_string(),
            min_pte: NA.to_string(),
            min_toefl: NA.to_string(),
            min_duolingo: NA.to_string(),
            kaplan_test_of_english: NA.to_string(),
            english_waiver_class12: NA.to_string(),
            english_waiver_moi: NA.to_string(),
        }
    }

    /// Returns all field values, in the order of the record.
    pub fn fields(&self) -> (result: [&str; Self::FIELD_COUNT])
        ensures
            result@.map_values(|f: &str| f@) == self@.fields(),
    {
        let result: [&str; Self::FIELD_COUNT] = [
            self.program_course_name.as_str(),
            self.university_name.as_str(),
            self.course_website_url.as_str(),
            self.campus.as_str(),
            self.country.as_str(),
            self.address.as_str(),
            self.study_level.as_str(),
            self.course_duration.as_str(),
            self.all_intakes_available.as_str(),
            self.mandatory_documents_required.as_str(),
            self.yearly_tuition_fee.as_str(),
            self.scholarship_availability.as_str(),
            self.gre_gmat_mandatory_min_score.as_str(),
            self.indian_regional_institution_restrictions.as_str(),
            self.class_12_boards_accepted.as_str(),
            self.gap_year_max_accepted.as_str(),
            self.mandatory_work_exp.as_str(),
            self.max_backlogs.as_str(),
            self.ug_academic_min_gpa.as_str(),
            self.twelfth_pass_min_cgpa.as_str(),
            self.min_ielts.as_str(),
            self.min_pte.as_str(),
            self.min_toefl.as_str(),
            self.min_duolingo.as_str(),
            self.kaplan_test_of_english.as_str(),
            self.english_waiver_class12.as_str(),
            self.english_waiver_moi.as_str(),
        ];
        assert(result@.map_values(|f: &str| f@) =~= self@.fields());
        result
    }

    /// Number of fields that contain real data (not `NA`).
    pub fn fill_rate(&self) -> (result: usize)
        ensures
            result == self@.filled(),
            result <= Self::FIELD_COUNT,
    {
        let fields: [&str; Self::FIELD_COUNT] = self.fields();
        let ghost all = self@.fields();
        let mut count: usize = 0;
        let mut i: usize = 0;
        proof {
            reveal(Seq::filter);
            assert(all.take(0) =~= Seq::empty());
        }
        while i < Self::FIELD_COUNT
            invariant
                i <= Self::FIELD_COUNT,
                all.len() == Self::FIELD_COUNT,
                fields@.map_values(|f: &str| f@) == all,
                count <= i,
                count == filled_among(all.take(i as int)),
            decreases Self::FIELD_COUNT - i,
        {
            proof {
                reveal(Seq::filter);
                assert(all.take(i + 1).drop_last() =~= all.take(i as int));
                assert(fields@.map_values(|f: &str| f@)[i as int] == fields@[i as int]@);
            }
            if !same_text(fields[i], NA) {
                count += 1;
            }
            i += 1;
        }
        assert(all.take(i as int) =~= all);
        count
    }

    /// Number of fields still set to `NA`.
    pub fn na_count(&self) -> (result: usize)
        ensures
            result == missing_among(self@.fields()),
            result == Self::FIELD_COUNT - self@.filled(),
    {
        proof {
            law_filled_and_missing(self@.fields());
        }
        Self::FIELD_COUNT - self.fill_rate()
    }

    /// Returns `true` if extraction succeeded at a minimum level (course name found).
    pub fn is_valid(&self) -> (result: bool)
        ensures
            result == self@.valid(),
    {
        !same_text(self.program_course_name.as_str(), NA)
    }
}

} // verus!
