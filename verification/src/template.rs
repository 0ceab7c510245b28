//! The deployment spec that `helyos init` writes.
use vstd::prelude::*;
use crate::text::concat2;

verus! {

/// The starter `app.yaml`: the project, the deployment (named in the header
/// comment, under `deployment.name` and in the example domain), the image
/// with one replica, and commented examples of the optional sections.
pub open spec fn template_text(project: Seq<char>, deployment: Seq<char>, image: Seq<char>) -> Seq<char> {
    "# Helyos deployment spec — "@ + deployment + "\n# Docs: https://github.com/helyos-labs/helyos\n\nproject: "@
        + project + "\n\ndeployment:\n  name: "@ + deployment + "\n\nimage: "@ + image
        + "\nreplicas: 1\n\n# ports:\n#   - 3000\n\n# env:\n#   DATABASE_URL: \"postgres://localhost/mydb\"\n\n# network:\n#   public: true\n#   domain: "@
        + deployment
        + ".example.com\n#   https: true\n\n# healthcheck:\n#   path: /health\n#   interval: 10s\n#   timeout: 5s\n#   retries: 3\n\n# volumes:\n#   - name: data\n#     mount_path: /app/data\n\n# restart: always  # always | on_failure | never\n"@
}

/// The starter deployment spec for a project, deployment and image.
pub fn generate_template(project: &str, deployment: &str, image: &str) -> (r: String)
    ensures
        r@ == template_text(project@, deployment@, image@),
{
    let mut r = concat2("# Helyos deployment spec — ", deployment);
    r.append("\n# Docs: https://github.com/helyos-labs/helyos\n\nproject: ");
    r.append(project);
    r.append("\n\ndeployment:\n  name: ");
    r.append(deployment);
    r.append("\n\nimage: ");
    r.append(image);
    r.append(
        "\nreplicas: 1\n\n# ports:\n#   - 3000\n\n# env:\n#   DATABASE_URL: \"postgres://localhost/mydb\"\n\n# network:\n#   public: true\n#   domain: ",
    );
    r.append(deployment);
    r.append(
        ".example.com\n#   https: true\n\n# healthcheck:\n#   path: /health\n#   interval: 10s\n#   timeout: 5s\n#   retries: 3\n\n# volumes:\n#   - name: data\n#     mount_path: /app/data\n\n# restart: always  # always | on_failure | never\n",
    );
    r
}

} // verus!
