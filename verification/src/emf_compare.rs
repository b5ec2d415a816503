//! Model comparison over object keys: the comparison result (matches,
//! differences, conflicts, equivalences, dependencies), move detection in
//! ordered references, three-way conflicts on many-valued references,
//! equivalences across containment boundaries, the dependencies between
//! differences and the order in which a merge applies them, and the filters
//! that veto differences.
pub mod comparison;
pub mod conflict_detector;
pub mod diff;
pub mod diff_engine;
pub mod diff_filter;
pub mod equivalence_engine;
pub mod match_engine;
pub mod merge_engine;
pub mod requirement_engine;
pub mod support;
