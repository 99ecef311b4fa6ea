use noisy_clusters::error::PipelineError;

#[test]
fn every_failure_has_a_message_of_its_own() {
    assert_eq!(PipelineError::Generation.message(), "invalid distribution parameters");
    assert_eq!(PipelineError::Fit.message(), "the clustering could not be fitted");
    assert_eq!(
        PipelineError::TableConstruction.message(),
        "rows and columns of the table do not line up"
    );
    assert_eq!(PipelineError::Io.message(), "the table file could not be written");
    assert_eq!(PipelineError::Render.message(), "the scatter plot could not be drawn");
}
